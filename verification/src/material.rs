use vstd::prelude::*;

use crate::fixed::{
    fdiv, fdiv_spec, fmul, fmul_spec, fsqrt, fsqrt_spec, iabs, lemma_fmul_abs_le, lemma_tdiv_abs,
    lemma_tdiv_bounds, FIX_ONE,
};
use crate::hitable::{hit_rec_ok, HitRecS, HitRecord};
use crate::ray::{ray_ok, Ray, RayS};
use crate::rng::rand_fixed;
use crate::vec3::{
    dot_spec, len_spec, lemma_len_lower, lemma_vscale_bound, unit_spec, v3_abs_le, vadd, vneg,
    vscale, vsub, Vec3, V3,
};

verus! {

/// The random inputs one scatter call consumes: a point of the closed unit
/// ball and a uniform draw from the unit interval. The tracer draws them; the
/// scatter functions are deterministic in them.
#[derive(Clone, Copy, PartialEq, Eq, Structural, Debug)]
pub struct BounceSample {
    pub p: Vec3,
    pub u: i64,
}

pub ghost struct SampleS {
    pub p: V3,
    pub u: int,
}

impl View for BounceSample {
    type V = SampleS;

    open spec fn view(&self) -> SampleS {
        SampleS { p: self.p@, u: self.u as int }
    }
}

pub open spec fn sample_wf(s: SampleS) -> bool {
    &&& v3_abs_le(s.p, FIX_ONE as int)
    &&& 0 <= s.u < FIX_ONE as int
}

/// Draw the random inputs for one scatter decision.
pub fn draw_sample() -> (s: BounceSample)
    ensures
        sample_wf(s@),
{
    BounceSample { p: Vec3::random_in_unit_sphere(), u: rand_fixed() }
}

/// A color multiplier and the continuing ray produced by one scatter.
#[derive(Clone, Copy, PartialEq, Eq, Structural, Debug)]
pub struct ScatterResult {
    pub attenuation: Vec3,
    pub scattered: Ray,
}

pub ghost struct ScatS {
    pub attenuation: V3,
    pub scattered: RayS,
}

impl View for ScatterResult {
    type V = ScatS;

    open spec fn view(&self) -> ScatS {
        ScatS { attenuation: self.attenuation@, scattered: self.scattered@ }
    }
}

/// Diffuse material: always scatters around the normal, tinted by its albedo.
#[derive(Clone, Copy, PartialEq, Eq, Structural, Debug)]
pub struct Lambertian {
    pub albedo: Vec3,
}

/// Reflective material with an optional fuzz perturbation.
#[derive(Clone, Copy, PartialEq, Eq, Structural, Debug)]
pub struct Metal {
    pub albedo: Vec3,
    pub fuzz: i64,
}

/// Refractive material (glass): splits between reflection and refraction.
#[derive(Clone, Copy, PartialEq, Eq, Structural, Debug)]
pub struct Dielectric {
    pub ref_idx: i64,
}

/// The one scattering capability, as a tagged variant.
#[derive(Clone, Copy, PartialEq, Eq, Structural, Debug)]
pub enum Material {
    Lambertian(Lambertian),
    Metal(Metal),
    Dielectric(Dielectric),
}

pub ghost enum MatS {
    Lambertian { albedo: V3 },
    Metal { albedo: V3, fuzz: int },
    Dielectric { ref_idx: int },
}

impl View for Material {
    type V = MatS;

    open spec fn view(&self) -> MatS {
        match self {
            Material::Lambertian(m) => MatS::Lambertian { albedo: m.albedo@ },
            Material::Metal(m) => MatS::Metal { albedo: m.albedo@, fuzz: m.fuzz as int },
            Material::Dielectric(m) => MatS::Dielectric { ref_idx: m.ref_idx as int },
        }
    }
}

/// A color with every channel in the unit interval.
pub open spec fn unit_box(v: V3) -> bool {
    &&& 0 <= v.x <= FIX_ONE as int
    &&& 0 <= v.y <= FIX_ONE as int
    &&& 0 <= v.z <= FIX_ONE as int
}

/// Well-formed material parameters: colors in the unit box, nonnegative fuzz,
/// and a refractive index between a quarter above zero and sixteen — enough
/// for every physical glass.
pub open spec fn mat_wf(m: MatS) -> bool {
    match m {
        MatS::Lambertian { albedo } => unit_box(albedo),
        MatS::Metal { albedo, fuzz } => unit_box(albedo) && 0 <= fuzz,
        MatS::Dielectric { ref_idx } => 16384 <= ref_idx <= 0x10_0000,
    }
}

/// Mirror reflection of `v` about the normal `n`.
pub open spec fn reflect_spec(v: V3, n: V3) -> V3 {
    let dt = dot_spec(v, n);
    V3 {
        x: v.x - 2 * fmul_spec(dt, n.x),
        y: v.y - 2 * fmul_spec(dt, n.y),
        z: v.z - 2 * fmul_spec(dt, n.z),
    }
}

/// Snell refraction of `v` through a surface with outward normal `n`, or
/// nothing under total internal reflection.
pub open spec fn refract_spec(v: V3, n: V3, ni_over_nt: int) -> Option<V3> {
    let uv = unit_spec(v);
    let dt = dot_spec(uv, n);
    let disc = FIX_ONE as int - fmul_spec(
        fmul_spec(ni_over_nt, ni_over_nt),
        FIX_ONE as int - fmul_spec(dt, dt),
    );
    if disc > 0 {
        Some(
            vsub(vscale(vsub(uv, vscale(n, dt)), ni_over_nt), vscale(n, fsqrt_spec(disc))),
        )
    } else {
        None
    }
}

/// The Schlick estimate of Fresnel reflectance.
pub open spec fn schlick_spec(cosine: int, ref_idx: int) -> int {
    let r0 = fdiv_spec(FIX_ONE as int - ref_idx, FIX_ONE as int + ref_idx);
    let r0sq = fmul_spec(r0, r0);
    let c = FIX_ONE as int - cosine;
    let c2 = fmul_spec(c, c);
    let c4 = fmul_spec(c2, c2);
    let c5 = fmul_spec(c4, c);
    r0sq + fmul_spec(FIX_ONE as int - r0sq, c5)
}

/// A cosine clamped into the fixed-point unit interval.
pub open spec fn clamp_unit_spec(c: int) -> int {
    if c > FIX_ONE as int {
        FIX_ONE as int
    } else if c < -(FIX_ONE as int) {
        -(FIX_ONE as int)
    } else {
        c
    }
}

pub open spec fn lambertian_scatter_spec(albedo: V3, h: HitRecS, s: SampleS) -> Option<ScatS> {
    let target = vadd(vadd(h.p, h.normal), s.p);
    Some(
        ScatS {
            attenuation: albedo,
            scattered: RayS { origin: h.p, direction: vsub(target, h.p) },
        },
    )
}

pub open spec fn metal_scatter_spec(
    albedo: V3,
    fuzz: int,
    r: RayS,
    h: HitRecS,
    s: SampleS,
) -> Option<ScatS> {
    let f = if fuzz < FIX_ONE as int {
        fuzz
    } else {
        FIX_ONE as int
    };
    let reflected = reflect_spec(unit_spec(r.direction), h.normal);
    let dir = vadd(reflected, vscale(s.p, f));
    if dot_spec(dir, h.normal) <= 0 {
        None
    } else {
        Some(
            ScatS { attenuation: albedo, scattered: RayS { origin: h.p, direction: dir } },
        )
    }
}

pub open spec fn dielectric_scatter_spec(
    ref_idx: int,
    r: RayS,
    h: HitRecS,
    s: SampleS,
) -> Option<ScatS> {
    let reflected = reflect_spec(r.direction, h.normal);
    let d_dot_n = dot_spec(r.direction, h.normal);
    let exiting = d_dot_n > 0;
    let outward = if exiting {
        vneg(h.normal)
    } else {
        h.normal
    };
    let ni_over_nt = if exiting {
        ref_idx
    } else {
        fdiv_spec(FIX_ONE as int, ref_idx)
    };
    let ccl = clamp_unit_spec(fdiv_spec(-d_dot_n, len_spec(r.direction)));
    let cosine = if exiting {
        -fmul_spec(ref_idx, ccl)
    } else {
        ccl
    };
    let refraction = refract_spec(r.direction, outward, ni_over_nt);
    let reflect_prob = match refraction {
        Some(u) => schlick_spec(cosine, ref_idx),
        None => FIX_ONE as int,
    };
    let refracted = match refraction {
        Some(u) => u,
        None => V3 { x: 0, y: 0, z: 0 },
    };
    let dir = if s.u < reflect_prob {
        reflected
    } else {
        refracted
    };
    Some(
        ScatS {
            attenuation: V3 { x: FIX_ONE as int, y: FIX_ONE as int, z: FIX_ONE as int },
            scattered: RayS { origin: h.p, direction: dir },
        },
    )
}

/// One scatter decision, deterministic in the drawn sample.
pub open spec fn scatter_spec(m: MatS, r: RayS, h: HitRecS, s: SampleS) -> Option<ScatS> {
    match m {
        MatS::Lambertian { albedo } => lambertian_scatter_spec(albedo, h, s),
        MatS::Metal { albedo, fuzz } => metal_scatter_spec(albedo, fuzz, r, h, s),
        MatS::Dielectric { ref_idx } => dielectric_scatter_spec(ref_idx, r, h, s),
    }
}

/// Mirror reflection about a surface normal.
pub fn reflect(v: Vec3, n: Vec3) -> (r: Vec3)
    requires
        v3_abs_le(v@, 0x2000_0000),
        v3_abs_le(n@, 0x4_0000),
    ensures
        r@ == reflect_spec(v@, n@),
        v3_abs_le(r@, 0x20_0000_0000),
{
    let dt = Vec3::dot(&v, &n);
    proof {
        assert(iabs(v@.x * n@.x) <= 0x8000_0000_0000 && iabs(v@.y * n@.y) <= 0x8000_0000_0000
            && iabs(v@.z * n@.z) <= 0x8000_0000_0000) by (nonlinear_arith)
            requires
                v3_abs_le(v@, 0x2000_0000),
                v3_abs_le(n@, 0x4_0000),
        ;
        assert(iabs(dt as int) <= 0x2_0000_0000) by (nonlinear_arith)
            requires
                iabs(dt as int) * 65536 <= 3 * 0x8000_0000_0000,
        ;
        assert(0x2_0000_0000 * 0x4_0000 <= 0x8_0000_0000 * 65536) by (nonlinear_arith);
        lemma_fmul_abs_le(dt as int, n@.x, 0x2_0000_0000, 0x4_0000, 0x8_0000_0000);
        lemma_fmul_abs_le(dt as int, n@.y, 0x2_0000_0000, 0x4_0000, 0x8_0000_0000);
        lemma_fmul_abs_le(dt as int, n@.z, 0x2_0000_0000, 0x4_0000, 0x8_0000_0000);
    }
    Vec3 { x: v.x - 2 * fmul(dt, n.x), y: v.y - 2 * fmul(dt, n.y), z: v.z - 2 * fmul(dt, n.z) }
}

/// Snell refraction, or nothing under total internal reflection.
pub fn refract(v: Vec3, n: Vec3, ni_over_nt: i64) -> (res: Option<Vec3>)
    requires
        v3_abs_le(v@, 0x2000_0000),
        dot_spec(v@, v@) >= 16384,
        v3_abs_le(n@, 0x4_0000),
        0 < ni_over_nt <= 0x10_0000,
    ensures
        (match (res, refract_spec(v@, n@, ni_over_nt as int)) {
            (Some(u), Some(us)) => u@ == us,
            (None, None) => true,
            _ => false,
        }),
        res matches Some(u) ==> v3_abs_le(u@, 0x2000_0000),
{
    let uv = Vec3::unit_vector(v);
    let dt = Vec3::dot(&uv, &n);
    proof {
        assert(iabs(uv@.x * n@.x) <= 0x8_0000_0000 && iabs(uv@.y * n@.y) <= 0x8_0000_0000 && iabs(
            uv@.z * n@.z,
        ) <= 0x8_0000_0000) by (nonlinear_arith)
            requires
                v3_abs_le(uv@, 131072),
                v3_abs_le(n@, 0x4_0000),
        ;
        assert(iabs(dt as int) <= 0x20_0000) by (nonlinear_arith)
            requires
                iabs(dt as int) * 65536 <= 3 * 0x8_0000_0000,
        ;
        assert(0x10_0000 * 0x10_0000 <= 0x100_0000 * 65536) by (nonlinear_arith);
        lemma_fmul_abs_le(ni_over_nt as int, ni_over_nt as int, 0x10_0000, 0x10_0000, 0x100_0000);
        assert(0x20_0000 * 0x20_0000 <= 0x400_0000 * 65536) by (nonlinear_arith);
        lemma_fmul_abs_le(dt as int, dt as int, 0x20_0000, 0x20_0000, 0x400_0000);
    }
    let nn = fmul(ni_over_nt, ni_over_nt);
    let dtt = fmul(dt, dt);
    let inner = FIX_ONE - dtt;
    proof {
        assert(0x100_0000 * 0x500_0000 <= 0x8_0000_0000 * 65536) by (nonlinear_arith);
        lemma_fmul_abs_le(nn as int, inner as int, 0x100_0000, 0x500_0000, 0x8_0000_0000);
    }
    let disc = FIX_ONE - fmul(nn, inner);
    if disc > 0 {
        let sq = fsqrt(disc);
        proof {
            assert(iabs(sq as int) <= 0x400_0000) by (nonlinear_arith)
                requires
                    0 <= sq as int,
                    (sq as int) * (sq as int) <= (disc as int) * 65536,
                    disc as int <= 0x9_0000_0000,
            ;
            assert(0x4_0000 * 0x20_0000 <= 0x80_0000 * 65536) by (nonlinear_arith);
            lemma_vscale_bound(n@, dt as int, 0x4_0000, 0x20_0000, 0x80_0000);
        }
        let sdt = n.scale(dt);
        let term1 = uv.sub(&sdt);
        proof {
            assert(0xa2_0000 * 0x10_0000 <= 0x1000_0000 * 65536) by (nonlinear_arith);
            lemma_vscale_bound(vsub(uv@, sdt@), ni_over_nt as int, 0xa2_0000, 0x10_0000, 0x1000_0000);
            assert(0x4_0000 * 0x400_0000 <= 0x1000_0000 * 65536) by (nonlinear_arith);
            lemma_vscale_bound(n@, sq as int, 0x4_0000, 0x400_0000, 0x1000_0000);
        }
        let part1 = term1.scale(ni_over_nt);
        let part2 = n.scale(sq);
        Some(part1.sub(&part2))
    } else {
        None
    }
}

/// The Schlick reflectance estimate. For a cosine above one (possible only
/// for an exiting ray, where the original scales by the index) the estimate
/// can go negative; a negative probability simply never wins the draw.
pub fn schlick(cosine: i64, ref_idx: i64) -> (r: i64)
    requires
        iabs(cosine as int) <= 0x10_0000,
        16384 <= ref_idx <= 0x10_0000,
    ensures
        r as int == schlick_spec(cosine as int, ref_idx as int),
{
    let r0 = fdiv(FIX_ONE - ref_idx, FIX_ONE + ref_idx);
    proof {
        lemma_tdiv_abs((FIX_ONE as int - ref_idx as int) * 65536, FIX_ONE as int + ref_idx as int);
        assert(iabs(r0 as int) <= 65536) by (nonlinear_arith)
            requires
                iabs(r0 as int) * iabs(65536 + ref_idx as int) <= iabs(
                    (65536 - ref_idx as int) * 65536,
                ),
                iabs((65536 - ref_idx as int) * 65536) == iabs(65536 - ref_idx as int) * 65536,
                iabs(65536 - ref_idx as int) < 65536 + ref_idx as int,
                iabs(65536 + ref_idx as int) == 65536 + ref_idx as int,
                ref_idx > 0,
        ;
        assert(iabs((65536 - ref_idx as int) * 65536) == iabs(65536 - ref_idx as int) * 65536)
            by (nonlinear_arith);
        lemma_fmul_abs_le(r0 as int, r0 as int, 65536, 65536, 65536);
        assert((r0 as int) * (r0 as int) >= 0) by (nonlinear_arith);
        lemma_tdiv_bounds((r0 as int) * (r0 as int), 65536);
    }
    let r0sq = fmul(r0, r0);
    let c = FIX_ONE - cosine;
    proof {
        assert(0x20_0000 * 0x20_0000 <= 0x400_0000 * 65536) by (nonlinear_arith);
        lemma_fmul_abs_le(c as int, c as int, 0x20_0000, 0x20_0000, 0x400_0000);
    }
    let c2 = fmul(c, c);
    proof {
        assert(0x400_0000 * 0x400_0000 <= 0x10_0000_0000 * 65536) by (nonlinear_arith);
        lemma_fmul_abs_le(c2 as int, c2 as int, 0x400_0000, 0x400_0000, 0x10_0000_0000);
    }
    let c4 = fmul(c2, c2);
    proof {
        assert(0x10_0000_0000 * 0x20_0000 <= 0x200_0000_0000 * 65536) by (nonlinear_arith);
        lemma_fmul_abs_le(c4 as int, c as int, 0x10_0000_0000, 0x20_0000, 0x200_0000_0000);
    }
    let c5 = fmul(c4, c);
    proof {
        assert(0x2_0000 * 0x200_0000_0000 <= 0x400_0000_0000 * 65536) by (nonlinear_arith);
        lemma_fmul_abs_le(
            FIX_ONE as int - r0sq as int,
            c5 as int,
            0x2_0000,
            0x200_0000_0000,
            0x400_0000_0000,
        );
    }
    r0sq + fmul(FIX_ONE - r0sq, c5)
}

impl Lambertian {
    /// Always scatters: the outgoing direction is the normal perturbed by the
    /// sampled unit-ball point, and the attenuation is the albedo.
    pub fn scatter(&self, _r: &Ray, hr: &HitRecord, sample: &BounceSample) -> (res: Option<
        ScatterResult,
    >)
        requires
            unit_box(self.albedo@),
            hit_rec_ok(hr@),
            sample_wf(sample@),
        ensures
            (match (res, lambertian_scatter_spec(self.albedo@, hr@, sample@)) {
                (Some(sr), Some(ss)) => sr@ == ss,
                (None, None) => true,
                _ => false,
            }),
            res.is_some(),
            res matches Some(sr) ==> unit_box(sr.attenuation@),
    {
        let t1 = hr.p.add(&hr.normal);
        let target = t1.add(&sample.p);
        let dir = target.sub(&hr.p);
        Some(
            ScatterResult {
                attenuation: self.albedo,
                scattered: Ray { origin: hr.p, direction: dir },
            },
        )
    }
}

impl Metal {
    /// Deterministic mirror reflection of the normalized incoming direction,
    /// perturbed by the sample scaled with the clamped fuzz; absorbed when
    /// the perturbed direction points into the surface.
    pub fn scatter(&self, r: &Ray, hr: &HitRecord, sample: &BounceSample) -> (res: Option<
        ScatterResult,
    >)
        requires
            unit_box(self.albedo@),
            self.fuzz >= 0,
            ray_ok(r@),
            hit_rec_ok(hr@),
            sample_wf(sample@),
        ensures
            (match (res, metal_scatter_spec(self.albedo@, self.fuzz as int, r@, hr@, sample@)) {
                (Some(sr), Some(ss)) => sr@ == ss,
                (None, None) => true,
                _ => false,
            }),
            res matches Some(sr) ==> unit_box(sr.attenuation@),
    {
        let f = if self.fuzz < FIX_ONE {
            self.fuzz
        } else {
            FIX_ONE
        };
        let uv = Vec3::unit_vector(r.direction);
        let reflected = reflect(uv, hr.normal);
        proof {
                lemma_vscale_bound(sample.p@, f as int, 65536, 65536, 65536);
        }
        let fz = sample.p.scale(f);
        let dir = reflected.add(&fz);
        let dn = Vec3::dot(&dir, &hr.normal);
        if dn <= 0 {
            None
        } else {
            Some(
                ScatterResult {
                    attenuation: self.albedo,
                    scattered: Ray { origin: hr.p, direction: dir },
                },
            )
        }
    }
}

impl Dielectric {
    /// Never absorbs: chooses between mirror reflection and Snell refraction
    /// by the uniform draw against the Schlick reflectance; total internal
    /// reflection forces reflection. Glass does not tint, so the attenuation
    /// is white.
    pub fn scatter(&self, r: &Ray, hr: &HitRecord, sample: &BounceSample) -> (res: Option<
        ScatterResult,
    >)
        requires
            16384 <= self.ref_idx <= 0x10_0000,
            ray_ok(r@),
            hit_rec_ok(hr@),
            sample_wf(sample@),
        ensures
            (match (res, dielectric_scatter_spec(self.ref_idx as int, r@, hr@, sample@)) {
                (Some(sr), Some(ss)) => sr@ == ss,
                (None, None) => true,
                _ => false,
            }),
            res.is_some(),
    {
        let reflected = reflect(r.direction, hr.normal);
        let d_dot_n = Vec3::dot(&r.direction, &hr.normal);
        proof {
            assert(iabs(r@.direction.x * hr@.normal.x) <= 0x8000_0000_0000 && iabs(
                r@.direction.y * hr@.normal.y,
            ) <= 0x8000_0000_0000 && iabs(r@.direction.z * hr@.normal.z) <= 0x8000_0000_0000)
                by (nonlinear_arith)
                requires
                    v3_abs_le(r@.direction, 0x2000_0000),
                    v3_abs_le(hr@.normal, 0x4_0000),
            ;
            assert(iabs(d_dot_n as int) <= 0x2_0000_0000) by (nonlinear_arith)
                requires
                    iabs(d_dot_n as int) * 65536 <= 3 * 0x8000_0000_0000,
            ;
        }
        let exiting = d_dot_n > 0;
        let outward = if exiting {
            hr.normal.neg()
        } else {
            hr.normal
        };
        let ni_over_nt = if exiting {
            self.ref_idx
        } else {
            let q = fdiv(FIX_ONE, self.ref_idx);
            proof {
                let s2: int = 65536int * 65536int;
                lemma_tdiv_abs(s2, self.ref_idx as int);
                lemma_tdiv_bounds(s2, self.ref_idx as int);
                assert(0 < q as int <= 0x10_0000) by (nonlinear_arith)
                    requires
                        q as int == crate::fixed::tdiv(s2, self.ref_idx as int),
                        s2 == 65536int * 65536int,
                        iabs(q as int) * iabs(self.ref_idx as int) <= iabs(s2),
                        s2 < (crate::fixed::tdiv(s2, self.ref_idx as int) + 1) * (
                        self.ref_idx as int),
                        crate::fixed::tdiv(s2, self.ref_idx as int) >= 0,
                        16384 <= self.ref_idx as int <= 0x10_0000,
                ;
            }
            q
        };
        let len = r.direction.length();
        proof {
            lemma_len_lower(r@.direction, len as int);
        }
        let c0 = fdiv(0 - d_dot_n, len);
        let ccl = if c0 > FIX_ONE {
            FIX_ONE
        } else if c0 < -FIX_ONE {
            -FIX_ONE
        } else {
            c0
        };
        let cosine = if exiting {
            proof {
                lemma_fmul_abs_le(self.ref_idx as int, ccl as int, 0x10_0000, 65536, 0x10_0000);
            }
            0 - fmul(self.ref_idx, ccl)
        } else {
            ccl
        };
        let mut reflect_prob: i64 = FIX_ONE;
        let mut refracted = Vec3 { x: 0, y: 0, z: 0 };
        match refract(r.direction, outward, ni_over_nt) {
            Some(u) => {
                reflect_prob = schlick(cosine, self.ref_idx);
                refracted = u;
            },
            None => {},
        }
        let dir = if sample.u < reflect_prob {
            reflected
        } else {
            refracted
        };
        Some(
            ScatterResult {
                attenuation: Vec3 { x: FIX_ONE, y: FIX_ONE, z: FIX_ONE },
                scattered: Ray { origin: hr.p, direction: dir },
            },
        )
    }
}

impl Material {
    /// Polymorphic scatter dispatch over the three materials.
    pub fn scatter(&self, r: &Ray, hr: &HitRecord, sample: &BounceSample) -> (res: Option<
        ScatterResult,
    >)
        requires
            mat_wf(self@),
            ray_ok(r@),
            hit_rec_ok(hr@),
            sample_wf(sample@),
        ensures
            (match (res, scatter_spec(self@, r@, hr@, sample@)) {
                (Some(sr), Some(ss)) => sr@ == ss,
                (None, None) => true,
                _ => false,
            }),
            res matches Some(sr) ==> unit_box(sr.attenuation@),
    {
        match self {
            Material::Lambertian(m) => m.scatter(r, hr, sample),
            Material::Metal(m) => m.scatter(r, hr, sample),
            Material::Dielectric(m) => m.scatter(r, hr, sample),
        }
    }
}

} // verus!
