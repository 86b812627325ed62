use vstd::prelude::*;

use crate::hitable::{HitResS, HitResult, T_MAX};
use crate::material::mat_wf;
use crate::ray::{ray_ok, Ray, RayS};
use crate::sphere::{sphere_hit_spec, sphere_wf, Sphere, SphereS};

verus! {

/// The scene: an insertion-ordered collection of primitives, read-only while
/// rendering.
#[derive(Clone, Debug)]
pub struct HitableList {
    pub list: Vec<Sphere>,
}

impl View for HitableList {
    type V = Seq<SphereS>;

    open spec fn view(&self) -> Seq<SphereS> {
        self.list@.map_values(|s: Sphere| s@)
    }
}

/// Every primitive of the scene is well formed.
pub open spec fn scene_wf(s: Seq<SphereS>) -> bool {
    forall|i: int| 0 <= i < s.len() ==> sphere_wf(#[trigger] s[i])
}

/// The rest of the linear scan, from primitive `i` on, with the shrinking
/// upper bound `closest` and the best hit found so far.
pub open spec fn list_hit_from(
    s: Seq<SphereS>,
    i: int,
    r: RayS,
    t_min: int,
    closest: int,
    best: Option<HitResS>,
) -> Option<HitResS>
    decreases s.len() - i,
{
    if i < 0 || i >= s.len() {
        best
    } else {
        match sphere_hit_spec(s[i], r, t_min, closest) {
            Some(h) => list_hit_from(
                s,
                i + 1,
                r,
                t_min,
                h.t,
                Some(HitResS { rec: h, material: s[i].material }),
            ),
            None => list_hit_from(s, i + 1, r, t_min, closest, best),
        }
    }
}

/// The nearest hit of the scene in `(t_min, t_max)`, found by the linear scan.
pub open spec fn list_hit_spec(s: Seq<SphereS>, r: RayS, t_min: int, t_max: int) -> Option<
    HitResS,
> {
    list_hit_from(s, 0, r, t_min, t_max, None)
}

pub open spec fn opt_res_view(o: Option<HitResult>) -> Option<HitResS> {
    match o {
        Some(h) => Some(h@),
        None => None,
    }
}

impl HitableList {
    /// Linear scan over all primitives, tightening the upper bound to the
    /// best hit found so far; what remains at the end is the nearest hit.
    pub fn hit(&self, r: &Ray, t_min: i64, t_max: i64) -> (res: Option<HitResult>)
        requires
            scene_wf(self@),
            ray_ok(r@),
            0 <= t_min,
            t_max <= T_MAX,
        ensures
            opt_res_view(res) == list_hit_spec(self@, r@, t_min as int, t_max as int),
            res matches Some(h) ==> t_min < h.rec.t < t_max && mat_wf(h.material@),
    {
        let mut closest_so_far: i64 = t_max;
        let mut hit_result: Option<HitResult> = None;
        let mut idx: usize = 0;
        while idx < self.list.len()
            invariant
                scene_wf(self@),
                ray_ok(r@),
                0 <= t_min,
                t_max <= T_MAX,
                idx <= self.list.len(),
                closest_so_far <= t_max,
                hit_result matches Some(h) ==> closest_so_far == h.rec.t && t_min < h.rec.t
                    < t_max && mat_wf(h.material@),
                hit_result is None ==> closest_so_far == t_max,
                list_hit_from(
                    self@,
                    idx as int,
                    r@,
                    t_min as int,
                    closest_so_far as int,
                    opt_res_view(hit_result),
                ) == list_hit_spec(self@, r@, t_min as int, t_max as int),
            decreases self.list.len() - idx,
        {
            let sph = &self.list[idx];
            match sph.hit(r, t_min, closest_so_far) {
                Some(h) => {
                    closest_so_far = h.t;
                    hit_result = Some(HitResult { rec: h, material: sph.material });
                },
                None => {},
            }
            idx = idx + 1;
        }
        hit_result
    }
}

} // verus!
