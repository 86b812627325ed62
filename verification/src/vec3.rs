use vstd::prelude::*;

use crate::fixed::{
    fdiv, fdiv_spec, fmul, fmul_spec, fsqrt, fsqrt_spec, iabs, isqrt_spec, lemma_tdiv_abs, tdiv,
    tdiv_exec, FIX_ONE,
};
use crate::rng::rand_fixed;

verus! {

/// A vector of three fixed-point scalars.
#[derive(Clone, Copy, PartialEq, Eq, Structural, Debug)]
pub struct Vec3 {
    pub x: i64,
    pub y: i64,
    pub z: i64,
}

/// The mathematical value of a `Vec3`: three unbounded integers, still in the
/// fixed-point scale.
pub ghost struct V3 {
    pub x: int,
    pub y: int,
    pub z: int,
}

impl View for Vec3 {
    type V = V3;

    open spec fn view(&self) -> V3 {
        V3 { x: self.x as int, y: self.y as int, z: self.z as int }
    }
}

/// Every component of `v` has magnitude at most `m`.
pub open spec fn v3_abs_le(v: V3, m: int) -> bool {
    iabs(v.x) <= m && iabs(v.y) <= m && iabs(v.z) <= m
}

pub open spec fn vadd(a: V3, b: V3) -> V3 {
    V3 { x: a.x + b.x, y: a.y + b.y, z: a.z + b.z }
}

pub open spec fn vsub(a: V3, b: V3) -> V3 {
    V3 { x: a.x - b.x, y: a.y - b.y, z: a.z - b.z }
}

pub open spec fn vneg(a: V3) -> V3 {
    V3 { x: -a.x, y: -a.y, z: -a.z }
}

/// Component-wise fixed-point product.
pub open spec fn vmul(a: V3, b: V3) -> V3 {
    V3 { x: fmul_spec(a.x, b.x), y: fmul_spec(a.y, b.y), z: fmul_spec(a.z, b.z) }
}

/// Fixed-point scaling by one scalar.
pub open spec fn vscale(a: V3, k: int) -> V3 {
    V3 { x: fmul_spec(a.x, k), y: fmul_spec(a.y, k), z: fmul_spec(a.z, k) }
}

/// Fixed-point dot product: the three integer products are summed exactly and
/// rescaled once.
pub open spec fn dot_spec(a: V3, b: V3) -> int {
    tdiv(a.x * b.x + a.y * b.y + a.z * b.z, FIX_ONE as int)
}

pub open spec fn cross_spec(a: V3, b: V3) -> V3 {
    V3 {
        x: fmul_spec(a.y, b.z) - fmul_spec(a.z, b.y),
        y: -(fmul_spec(a.x, b.z) - fmul_spec(a.z, b.x)),
        z: fmul_spec(a.x, b.y) - fmul_spec(a.y, b.x),
    }
}

/// Fixed-point length: square root of the fixed-point dot square.
pub open spec fn len_spec(a: V3) -> int {
    fsqrt_spec(dot_spec(a, a))
}

/// Fixed-point normalization: each component divided by the length.
pub open spec fn unit_spec(a: V3) -> V3 {
    V3 {
        x: fdiv_spec(a.x, len_spec(a)),
        y: fdiv_spec(a.y, len_spec(a)),
        z: fdiv_spec(a.z, len_spec(a)),
    }
}

/// A dot square is never negative.
pub proof fn lemma_dot_self_nonneg(a: V3)
    ensures
        dot_spec(a, a) >= 0,
        a.x * a.x <= dot_spec(a, a) * (FIX_ONE as int) + (FIX_ONE as int) - 1,
        a.y * a.y <= dot_spec(a, a) * (FIX_ONE as int) + (FIX_ONE as int) - 1,
        a.z * a.z <= dot_spec(a, a) * (FIX_ONE as int) + (FIX_ONE as int) - 1,
{
    let s = a.x * a.x + a.y * a.y + a.z * a.z;
    assert(a.x * a.x >= 0 && a.y * a.y >= 0 && a.z * a.z >= 0) by (nonlinear_arith);
    let q = s / 65536;
    vstd::arithmetic::div_mod::lemma_fundamental_div_mod(s, 65536);
    assert(q >= 0) by (nonlinear_arith)
        requires
            s >= 0,
            q == s / 65536,
    ;
    assert(dot_spec(a, a) == q);
}

impl Vec3 {
    /// The zero vector when no components are given.
    pub fn new(e: Option<[i64; 3]>) -> (r: Vec3)
        ensures
            r@ == (match e {
                Some(a) => V3 { x: a[0] as int, y: a[1] as int, z: a[2] as int },
                None => V3 { x: 0, y: 0, z: 0 },
            }),
    {
        match e {
            Some(a) => Vec3 { x: a[0], y: a[1], z: a[2] },
            None => Vec3 { x: 0, y: 0, z: 0 },
        }
    }

    pub fn get_x(&self) -> (r: i64)
        ensures
            r as int == self@.x,
    {
        self.x
    }

    pub fn get_y(&self) -> (r: i64)
        ensures
            r as int == self@.y,
    {
        self.y
    }

    pub fn get_z(&self) -> (r: i64)
        ensures
            r as int == self@.z,
    {
        self.z
    }

    pub fn get_r(&self) -> (r: i64)
        ensures
            r as int == self@.x,
    {
        self.x
    }

    pub fn get_g(&self) -> (r: i64)
        ensures
            r as int == self@.y,
    {
        self.y
    }

    pub fn get_b(&self) -> (r: i64)
        ensures
            r as int == self@.z,
    {
        self.z
    }

    pub fn add(&self, other: &Vec3) -> (r: Vec3)
        requires
            v3_abs_le(self@, 0x2000_0000_0000_0000),
            v3_abs_le(other@, 0x2000_0000_0000_0000),
        ensures
            r@ == vadd(self@, other@),
    {
        Vec3 { x: self.x + other.x, y: self.y + other.y, z: self.z + other.z }
    }

    pub fn sub(&self, other: &Vec3) -> (r: Vec3)
        requires
            v3_abs_le(self@, 0x2000_0000_0000_0000),
            v3_abs_le(other@, 0x2000_0000_0000_0000),
        ensures
            r@ == vsub(self@, other@),
    {
        Vec3 { x: self.x - other.x, y: self.y - other.y, z: self.z - other.z }
    }

    pub fn neg(&self) -> (r: Vec3)
        requires
            v3_abs_le(self@, 0x2000_0000_0000_0000),
        ensures
            r@ == vneg(self@),
    {
        Vec3 { x: -self.x, y: -self.y, z: -self.z }
    }

    /// Component-wise fixed-point product.
    pub fn mul(&self, other: &Vec3) -> (r: Vec3)
        requires
            v3_abs_le(self@, 0x8000_0000),
            v3_abs_le(other@, 0x8000_0000),
        ensures
            r@ == vmul(self@, other@),
            v3_abs_le(r@, 0x4000_0000_0000),
    {
        Vec3 {
            x: fmul(self.x, other.x),
            y: fmul(self.y, other.y),
            z: fmul(self.z, other.z),
        }
    }

    /// Fixed-point scaling by one scalar.
    pub fn scale(&self, k: i64) -> (r: Vec3)
        requires
            v3_abs_le(self@, 0x8000_0000),
            iabs(k as int) <= 0x8000_0000,
        ensures
            r@ == vscale(self@, k as int),
            v3_abs_le(r@, 0x4000_0000_0000),
    {
        Vec3 { x: fmul(self.x, k), y: fmul(self.y, k), z: fmul(self.z, k) }
    }

    pub fn dot(a: &Vec3, b: &Vec3) -> (r: i64)
        requires
            v3_abs_le(a@, 0x40_0000_0000),
            v3_abs_le(b@, 0x40_0000_0000),
        ensures
            r as int == dot_spec(a@, b@),
            iabs(r as int) * 65536 <= iabs(a@.x * b@.x) + iabs(a@.y * b@.y) + iabs(a@.z * b@.z),
            iabs(r as int) <= 0x3000_0000_0000_0000,
    {
        proof {
            assert(iabs((a.x as int) * (b.x as int)) <= 0x1000_0000_0000_0000_0000 && iabs(
                (a.y as int) * (b.y as int),
            ) <= 0x1000_0000_0000_0000_0000 && iabs((a.z as int) * (b.z as int))
                <= 0x1000_0000_0000_0000_0000) by (nonlinear_arith)
                requires
                    v3_abs_le(a@, 0x40_0000_0000),
                    v3_abs_le(b@, 0x40_0000_0000),
            ;
        }
        let px: i128 = (a.x as i128) * (b.x as i128);
        let py: i128 = (a.y as i128) * (b.y as i128);
        let pz: i128 = (a.z as i128) * (b.z as i128);
        let q: i128 = tdiv_exec(px + py + pz, 65536);
        proof {
            lemma_tdiv_abs((px + py + pz) as int, 65536);
        }
        q as i64
    }

    pub fn cross(a: &Vec3, b: &Vec3) -> (r: Vec3)
        requires
            v3_abs_le(a@, 0x8000_0000),
            v3_abs_le(b@, 0x8000_0000),
        ensures
            r@ == cross_spec(a@, b@),
    {
        Vec3 {
            x: fmul(a.y, b.z) - fmul(a.z, b.y),
            y: -(fmul(a.x, b.z) - fmul(a.z, b.x)),
            z: fmul(a.x, b.y) - fmul(a.y, b.x),
        }
    }

    pub fn squared_length(&self) -> (r: i64)
        requires
            v3_abs_le(self@, 0x20_0000_0000),
        ensures
            r as int == dot_spec(self@, self@),
            r >= 0,
    {
        proof {
            lemma_dot_self_nonneg(self@);
        }
        Vec3::dot(self, self)
    }

    pub fn length(&self) -> (r: i64)
        requires
            v3_abs_le(self@, 0x20_0000_0000),
        ensures
            r as int == len_spec(self@),
            r >= 0,
    {
        let sq = self.squared_length();
        fsqrt(sq)
    }

    /// Normalization. The squared length must be at least a quarter so that
    /// the division is well conditioned; the result's components then stay
    /// within twice the unit scale.
    pub fn unit_vector(v: Vec3) -> (r: Vec3)
        requires
            v3_abs_le(v@, 0x2000_0000),
            dot_spec(v@, v@) >= 16384,
        ensures
            r@ == unit_spec(v@),
            v3_abs_le(r@, 131072),
    {
        let l = v.length();
        proof {
            lemma_len_lower(v@, l as int);
            lemma_dot_self_nonneg(v@);
            let q = dot_spec(v@, v@);
            crate::fixed::lemma_isqrt_correct((q * 65536) as nat);
            assert(l as int == isqrt_spec((q * 65536) as nat) as int);
            assert((l as int) * (l as int) <= q * 65536);
            assert(q * 65536 < ((l as int) + 1) * ((l as int) + 1));
            lemma_unit_component(v@.x, dot_spec(v@, v@), l as int);
            lemma_unit_component(v@.y, dot_spec(v@, v@), l as int);
            lemma_unit_component(v@.z, dot_spec(v@, v@), l as int);
        }
        Vec3 { x: fdiv(v.x, l), y: fdiv(v.y, l), z: fdiv(v.z, l) }
    }

    pub fn make_unit_vector(&mut self)
        requires
            v3_abs_le(old(self)@, 0x2000_0000),
            dot_spec(old(self)@, old(self)@) >= 16384,
        ensures
            final(self)@ == unit_spec(old(self)@),
            v3_abs_le(final(self)@, 131072),
    {
        *self = Vec3::unit_vector(*self);
    }

    /// Square-root gamma correction of a color, component by component.
    pub fn gamma2_correct(&mut self)
        requires
            0 <= old(self)@.x,
            0 <= old(self)@.y,
            0 <= old(self)@.z,
        ensures
            final(self)@ == (V3 {
                x: fsqrt_spec(old(self)@.x),
                y: fsqrt_spec(old(self)@.y),
                z: fsqrt_spec(old(self)@.z),
            }),
    {
        *self = Vec3 { x: fsqrt(self.x), y: fsqrt(self.y), z: fsqrt(self.z) };
    }

    /// A point drawn from the closed unit ball, by rejection sampling over the
    /// enclosing cube. After a fixed number of rejected draws the origin is
    /// returned, which also lies in the ball.
    pub fn random_in_unit_sphere() -> (r: Vec3)
        ensures
            v3_abs_le(r@, FIX_ONE as int),
            dot_spec(r@, r@) <= FIX_ONE as int,
    {
        let mut attempts: u32 = 64;
        while attempts > 0
            invariant
                true,
            decreases attempts,
        {
            let p = Vec3 {
                x: 2 * rand_fixed() - FIX_ONE,
                y: 2 * rand_fixed() - FIX_ONE,
                z: 2 * rand_fixed() - FIX_ONE,
            };
            if p.squared_length() <= FIX_ONE {
                return p;
            }
            attempts = attempts - 1;
        }
        let o = Vec3 { x: 0, y: 0, z: 0 };
        proof {
            lemma_dot_self_nonneg(o@);
            assert(o@.x * o@.x == 0 && o@.y * o@.y == 0 && o@.z * o@.z == 0) by (nonlinear_arith)
                requires
                    o@.x == 0,
                    o@.y == 0,
                    o@.z == 0,
            ;
            assert(dot_spec(o@, o@) == tdiv(0, 65536));
        }
        o
    }
}

/// A squared length of at least a quarter puts the length at or above half
/// the unit scale.
pub proof fn lemma_len_lower(v: V3, l: int)
    requires
        dot_spec(v, v) >= 16384,
        l == len_spec(v),
    ensures
        l >= 32768,
{
    crate::fixed::lemma_isqrt_correct((dot_spec(v, v) * (FIX_ONE as int)) as nat);
    assert(l >= 32768) by (nonlinear_arith)
        requires
            l >= 0,
            (l + 1) * (l + 1) > dot_spec(v, v) * 65536,
            dot_spec(v, v) >= 16384,
    ;
}

/// A bound on a vector and on a scalar bounds their fixed-point scaling.
pub proof fn lemma_vscale_bound(a: V3, k: int, ma: int, mk: int, m: int)
    requires
        v3_abs_le(a, ma),
        iabs(k) <= mk,
        ma * mk <= m * 65536,
    ensures
        v3_abs_le(vscale(a, k), m),
{
    crate::fixed::lemma_fmul_abs_le(a.x, k, ma, mk, m);
    crate::fixed::lemma_fmul_abs_le(a.y, k, ma, mk, m);
    crate::fixed::lemma_fmul_abs_le(a.z, k, ma, mk, m);
}

/// One normalized component stays within twice the unit scale.
pub proof fn lemma_unit_component(x: int, q: int, l: int)
    requires
        q >= 16384,
        x * x <= q * 65536 + 65535,
        l * l <= q * 65536,
        q * 65536 < (l + 1) * (l + 1),
        l >= 32768,
    ensures
        iabs(fdiv_spec(x, l)) <= 131072,
{
    assert(x * x <= 4 * (l * l)) by (nonlinear_arith)
        requires
            x * x <= q * 65536 + 65535,
            q * 65536 < (l + 1) * (l + 1),
            l >= 32768,
    ;
    assert(iabs(x) <= 2 * l) by (nonlinear_arith)
        requires
            x * x <= 4 * (l * l),
            l >= 0,
    ;
    lemma_tdiv_abs(x * 65536, l);
    assert(iabs(x * 65536) == iabs(x) * 65536) by (nonlinear_arith);
    assert(iabs(tdiv(x * 65536, l)) <= 131072) by (nonlinear_arith)
        requires
            iabs(tdiv(x * 65536, l)) * iabs(l) <= iabs(x) * 65536,
            iabs(x) <= 2 * l,
            l >= 32768,
            iabs(l) == l,
    ;
}

} // verus!
