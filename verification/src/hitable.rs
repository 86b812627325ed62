use vstd::prelude::*;

use crate::material::{MatS, Material};
use crate::vec3::{v3_abs_le, Vec3, V3};

verus! {

/// Lower bound on accepted hit parameters in the tracer: about a thousandth,
/// so a bounce never re-intersects the surface it starts on (shadow acne).
pub const T_EPS: i64 = 65;

/// Upper bound on hit parameters in the tracer: the far edge of the scene box.
pub const T_MAX: i64 = 0x2000_0000;

/// One intersection: the parameter along the ray, the point reached, and the
/// outward surface normal there (unit length up to rounding).
#[derive(Clone, Copy, PartialEq, Eq, Structural, Debug)]
pub struct HitRecord {
    pub t: i64,
    pub p: Vec3,
    pub normal: Vec3,
}

pub ghost struct HitRecS {
    pub t: int,
    pub p: V3,
    pub normal: V3,
}

impl View for HitRecord {
    type V = HitRecS;

    open spec fn view(&self) -> HitRecS {
        HitRecS { t: self.t as int, p: self.p@, normal: self.normal@ }
    }
}

/// A hit together with the material of the primitive that was struck.
#[derive(Clone, Copy, PartialEq, Eq, Structural, Debug)]
pub struct HitResult {
    pub rec: HitRecord,
    pub material: Material,
}

pub ghost struct HitResS {
    pub rec: HitRecS,
    pub material: MatS,
}

impl View for HitResult {
    type V = HitResS;

    open spec fn view(&self) -> HitResS {
        HitResS { rec: self.rec@, material: self.material@ }
    }
}

/// The hits a material can scatter from: the point inside the scene box and
/// the normal of sane magnitude (at most four, in fixed point). Rounding in a
/// degenerate intersection can breach this; the tracer tests it at run time.
pub open spec fn hit_rec_ok(h: HitRecS) -> bool {
    &&& v3_abs_le(h.p, 0x2000_0000)
    &&& v3_abs_le(h.normal, 0x4_0000)
}

impl HitRecord {
    /// Whether this record satisfies `hit_rec_ok`, decided at run time.
    pub fn is_ok(&self) -> (b: bool)
        ensures
            b == hit_rec_ok(self@),
    {
        -0x2000_0000 <= self.p.x && self.p.x <= 0x2000_0000 && -0x2000_0000 <= self.p.y && self.p.y
            <= 0x2000_0000 && -0x2000_0000 <= self.p.z && self.p.z <= 0x2000_0000 && -0x4_0000
            <= self.normal.x && self.normal.x <= 0x4_0000 && -0x4_0000 <= self.normal.y
            && self.normal.y <= 0x4_0000 && -0x4_0000 <= self.normal.z && self.normal.z <= 0x4_0000
    }
}

} // verus!
