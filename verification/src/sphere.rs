use vstd::prelude::*;

use crate::fixed::{
    fdiv, fdiv_spec, fmul, fmul_spec, iabs, isqrt, isqrt_spec, lemma_fmul_abs_le, tdiv, tdiv_exec,
};
use crate::hitable::{HitRecS, HitRecord, T_MAX};
use crate::material::{mat_wf, MatS, Material};
use crate::ray::{ray_at_spec, ray_ok, Ray, RayS};
use crate::vec3::{dot_spec, lemma_vscale_bound, v3_abs_le, vsub, Vec3, V3};

verus! {

/// A spherical primitive owning its material. A negative radius is legal and
/// flips the normals (a hollow-sphere trick); only zero is excluded.
#[derive(Clone, Copy, PartialEq, Eq, Structural, Debug)]
pub struct Sphere {
    pub center: Vec3,
    pub radius: i64,
    pub material: Material,
}

pub ghost struct SphereS {
    pub center: V3,
    pub radius: int,
    pub material: MatS,
}

impl View for Sphere {
    type V = SphereS;

    open spec fn view(&self) -> SphereS {
        SphereS { center: self.center@, radius: self.radius as int, material: self.material@ }
    }
}

/// Well-formed sphere: center inside the scene box, nonzero radius of bounded
/// magnitude, well-formed material.
pub open spec fn sphere_wf(s: SphereS) -> bool {
    &&& v3_abs_le(s.center, 0x2000_0000)
    &&& s.radius != 0
    &&& iabs(s.radius) <= 0x2000_0000
    &&& mat_wf(s.material)
}

/// The record handed back for a hit at parameter `t`: the point reached, and
/// the outward normal `(p - center) / radius` — division by a negative radius
/// is what flips the normal for hollow spheres.
pub open spec fn sphere_hit_rec(s: SphereS, r: RayS, t: int) -> HitRecS {
    let p = ray_at_spec(r, t);
    HitRecS {
        t,
        p,
        normal: V3 {
            x: fdiv_spec(p.x - s.center.x, s.radius),
            y: fdiv_spec(p.y - s.center.y, s.radius),
            z: fdiv_spec(p.z - s.center.z, s.radius),
        },
    }
}

/// The whole intersection query: solve the quadratic
/// `a t^2 + 2 b t + c = 0` in fixed point and take the first of the two roots
/// (nearer first) that lies strictly inside `(t_min, t_max)`.
pub open spec fn sphere_hit_spec(s: SphereS, r: RayS, t_min: int, t_max: int) -> Option<HitRecS> {
    let oc = vsub(r.origin, s.center);
    let a = dot_spec(r.direction, r.direction);
    let b = dot_spec(oc, r.direction);
    let c = dot_spec(oc, oc) - fmul_spec(s.radius, s.radius);
    let disc = b * b - a * c;
    if disc > 0 {
        let sq = isqrt_spec(disc as nat) as int;
        let t1 = tdiv((-b - sq) * 65536, a);
        if t1 < t_max && t1 > t_min {
            Some(sphere_hit_rec(s, r, t1))
        } else {
            let t2 = tdiv((-b + sq) * 65536, a);
            if t2 < t_max && t2 > t_min {
                Some(sphere_hit_rec(s, r, t2))
            } else {
                None
            }
        }
    } else {
        None
    }
}

impl Sphere {
    /// The record for a hit of this sphere at parameter `t`.
    fn hit_record_at(&self, r: &Ray, t: i64) -> (h: HitRecord)
        requires
            sphere_wf(self@),
            ray_ok(r@),
            0 <= t <= T_MAX,
        ensures
            h@ == sphere_hit_rec(self@, r@, t as int),
    {
        proof {
            assert(0x2000_0000 * 0x2000_0000 <= 0x400_0000_0000 * 65536) by (nonlinear_arith);
            lemma_vscale_bound(
                r@.direction,
                t as int,
                0x2000_0000,
                0x2000_0000,
                0x400_0000_0000,
            );
        }
        let p = r.point_at_parameter(t);
        let pc = p.sub(&self.center);
        let normal = Vec3 {
            x: fdiv(pc.x, self.radius),
            y: fdiv(pc.y, self.radius),
            z: fdiv(pc.z, self.radius),
        };
        HitRecord { t, p, normal }
    }

    /// The nearest intersection with parameter strictly inside
    /// `(t_min, t_max)`, or nothing.
    pub fn hit(&self, r: &Ray, t_min: i64, t_max: i64) -> (res: Option<HitRecord>)
        requires
            sphere_wf(self@),
            ray_ok(r@),
            0 <= t_min,
            t_max <= T_MAX,
        ensures
            (match (res, sphere_hit_spec(self@, r@, t_min as int, t_max as int)) {
                (Some(h), Some(hs)) => h@ == hs,
                (None, None) => true,
                _ => false,
            }),
            res matches Some(h) ==> t_min < h.t < t_max,
    {
        let oc = r.origin.sub(&self.center);
        let a = Vec3::dot(&r.direction, &r.direction);
        let b = Vec3::dot(&oc, &r.direction);
        let oo = Vec3::dot(&oc, &oc);
        proof {
            assert(iabs(r@.direction.x * r@.direction.x) <= 0x400_0000_0000_0000 && iabs(
                r@.direction.y * r@.direction.y,
            ) <= 0x400_0000_0000_0000 && iabs(r@.direction.z * r@.direction.z)
                <= 0x400_0000_0000_0000) by (nonlinear_arith)
                requires
                    v3_abs_le(r@.direction, 0x2000_0000),
            ;
            assert(iabs(oc@.x * r@.direction.x) <= 0x800_0000_0000_0000 && iabs(
                oc@.y * r@.direction.y,
            ) <= 0x800_0000_0000_0000 && iabs(oc@.z * r@.direction.z) <= 0x800_0000_0000_0000)
                by (nonlinear_arith)
                requires
                    v3_abs_le(oc@, 0x4000_0000),
                    v3_abs_le(r@.direction, 0x2000_0000),
            ;
            assert(iabs(oc@.x * oc@.x) <= 0x1000_0000_0000_0000 && iabs(oc@.y * oc@.y)
                <= 0x1000_0000_0000_0000 && iabs(oc@.z * oc@.z) <= 0x1000_0000_0000_0000)
                by (nonlinear_arith)
                requires
                    v3_abs_le(oc@, 0x4000_0000),
            ;
            assert(iabs(a as int) <= 0x1000_0000_0000) by (nonlinear_arith)
                requires
                    iabs(a as int) * 65536 <= 3 * 0x400_0000_0000_0000,
            ;
            assert(iabs(b as int) <= 0x2000_0000_0000) by (nonlinear_arith)
                requires
                    iabs(b as int) * 65536 <= 3 * 0x800_0000_0000_0000,
            ;
            assert(iabs(oo as int) <= 0x4000_0000_0000) by (nonlinear_arith)
                requires
                    iabs(oo as int) * 65536 <= 3 * 0x1000_0000_0000_0000,
            ;
            assert(0x2000_0000 * 0x2000_0000 <= 0x400_0000_0000 * 65536) by (nonlinear_arith);
            lemma_fmul_abs_le(
                self@.radius,
                self@.radius,
                0x2000_0000,
                0x2000_0000,
                0x400_0000_0000,
            );
        }
        let cc = oo - fmul(self.radius, self.radius);
        proof {
            assert(iabs((b as int) * (b as int)) <= 0x1000_0000_0000_0000_0000_0000 && iabs(
                (a as int) * (cc as int),
            ) <= 0x1000_0000_0000_0000_0000_0000) by (nonlinear_arith)
                requires
                    iabs(a as int) <= 0x1000_0000_0000,
                    iabs(b as int) <= 0x2000_0000_0000,
                    iabs(cc as int) <= 0x4400_0000_0000,
            ;
        }
        let disc: i128 = (b as i128) * (b as i128) - (a as i128) * (cc as i128);
        if disc > 0 {
            let sq_u: u64 = isqrt(disc as u128);
            proof {
                assert(iabs(sq_u as int) <= 0x8000_0000_0000) by (nonlinear_arith)
                    requires
                        0 <= sq_u as int,
                        (sq_u as int) * (sq_u as int) <= disc as int,
                        disc as int <= 0x2000_0000_0000_0000_0000_0000,
                ;
            }
            let sq: i64 = sq_u as i64;
            let num1: i128 = ((0 - b - sq) as i128) * 65536;
            let t1: i128 = tdiv_exec(num1, a as i128);
            if (t_min as i128) < t1 && t1 < (t_max as i128) {
                Some(self.hit_record_at(r, t1 as i64))
            } else {
                let num2: i128 = ((0 - b + sq) as i128) * 65536;
                let t2: i128 = tdiv_exec(num2, a as i128);
                if (t_min as i128) < t2 && t2 < (t_max as i128) {
                    Some(self.hit_record_at(r, t2 as i64))
                } else {
                    None
                }
            }
        } else {
            None
        }
    }
}

} // verus!
