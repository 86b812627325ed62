use vstd::prelude::*;

use crate::fixed::iabs;
use crate::vec3::{dot_spec, v3_abs_le, vadd, vscale, Vec3, V3};

verus! {

/// A ray: an origin and a direction. The direction need not be unit length;
/// every distance parameter `t` is relative to its actual magnitude.
#[derive(Clone, Copy, PartialEq, Eq, Structural, Debug)]
pub struct Ray {
    pub origin: Vec3,
    pub direction: Vec3,
}

pub ghost struct RayS {
    pub origin: V3,
    pub direction: V3,
}

impl View for Ray {
    type V = RayS;

    open spec fn view(&self) -> RayS {
        RayS { origin: self.origin@, direction: self.direction@ }
    }
}

/// The point reached after parameter `t` along the direction.
pub open spec fn ray_at_spec(r: RayS, t: int) -> V3 {
    vadd(r.origin, vscale(r.direction, t))
}

/// The rays the tracer works on: coordinates within the scene box, and a
/// direction of squared length at least a quarter, so that the intersection
/// quadratic and the normalizations are well conditioned. A zero or nearly
/// zero direction is a caller error and is kept out here.
pub open spec fn ray_ok(r: RayS) -> bool {
    &&& v3_abs_le(r.origin, 0x2000_0000)
    &&& v3_abs_le(r.direction, 0x2000_0000)
    &&& dot_spec(r.direction, r.direction) >= 16384
}

impl Ray {
    pub fn point_at_parameter(&self, t: i64) -> (p: Vec3)
        requires
            v3_abs_le(self@.origin, 0x2000_0000_0000_0000),
            v3_abs_le(self@.direction, 0x8000_0000),
            iabs(t as int) <= 0x8000_0000,
        ensures
            p@ == ray_at_spec(self@, t as int),
    {
        self.origin.add(&self.direction.scale(t))
    }

    /// Whether this ray satisfies `ray_ok`, decided at run time.
    pub fn is_ok(&self) -> (b: bool)
        ensures
            b == ray_ok(self@),
    {
        let bounded = -0x2000_0000 <= self.origin.x && self.origin.x <= 0x2000_0000
            && -0x2000_0000 <= self.origin.y && self.origin.y <= 0x2000_0000 && -0x2000_0000
            <= self.origin.z && self.origin.z <= 0x2000_0000 && -0x2000_0000 <= self.direction.x
            && self.direction.x <= 0x2000_0000 && -0x2000_0000 <= self.direction.y
            && self.direction.y <= 0x2000_0000 && -0x2000_0000 <= self.direction.z
            && self.direction.z <= 0x2000_0000;
        if !bounded {
            return false;
        }
        self.direction.squared_length() >= 16384
    }
}

} // verus!
