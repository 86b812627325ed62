use vstd::prelude::*;

verus! {

/// One in the fixed-point scale: a scalar is an `i64` holding its value times 65536.
pub const FIX_ONE: i64 = 65536;

/// Magnitude of a mathematical integer.
pub open spec fn iabs(a: int) -> int {
    if a >= 0 {
        a
    } else {
        -a
    }
}

/// Division rounded toward zero, the rounding of every executable fixed-point
/// operation here. Meaningful only for `b != 0`.
pub open spec fn tdiv(a: int, b: int) -> int {
    if (a >= 0) == (b >= 0) {
        iabs(a) / iabs(b)
    } else {
        -(iabs(a) / iabs(b))
    }
}

/// Fixed-point product: the integer product rescaled, rounded toward zero.
pub open spec fn fmul_spec(a: int, b: int) -> int {
    tdiv(a * b, FIX_ONE as int)
}

/// Fixed-point quotient: `a / b` rescaled, rounded toward zero.
pub open spec fn fdiv_spec(a: int, b: int) -> int {
    tdiv(a * (FIX_ONE as int), b)
}

/// Floor of the real square root of a natural number.
pub open spec fn isqrt_spec(n: nat) -> nat
    decreases n,
{
    if n == 0 {
        0
    } else {
        let r = isqrt_spec((n - 1) as nat);
        if (r + 1) * (r + 1) <= n {
            r + 1
        } else {
            r
        }
    }
}

/// Fixed-point square root of a nonnegative scalar.
pub open spec fn fsqrt_spec(a: int) -> int {
    isqrt_spec((a * (FIX_ONE as int)) as nat) as int
}

pub proof fn lemma_isqrt_correct(n: nat)
    ensures
        isqrt_spec(n) * isqrt_spec(n) <= n,
        n < (isqrt_spec(n) + 1) * (isqrt_spec(n) + 1),
    decreases n,
{
    if n == 0 {
        assert(isqrt_spec(n) == 0);
        assert(isqrt_spec(n) * isqrt_spec(n) == 0 && (isqrt_spec(n) + 1) * (isqrt_spec(n) + 1)
            == 1) by (nonlinear_arith)
            requires
                isqrt_spec(n) == 0,
        ;
    } else {
        lemma_isqrt_correct((n - 1) as nat);
        let r = isqrt_spec((n - 1) as nat);
        if (r + 1) * (r + 1) <= n {
            assert(isqrt_spec(n) == r + 1);
            assert(isqrt_spec(n) * isqrt_spec(n) == (r + 1) * (r + 1));
            assert(n < ((r + 1) + 1) * ((r + 1) + 1)) by (nonlinear_arith)
                requires
                    n - 1 < (r + 1) * (r + 1),
                    r >= 0,
            ;
            assert((isqrt_spec(n) + 1) * (isqrt_spec(n) + 1) == ((r + 1) + 1) * ((r + 1) + 1));
        } else {
            assert(isqrt_spec(n) == r);
            assert(isqrt_spec(n) * isqrt_spec(n) == r * r);
            assert((isqrt_spec(n) + 1) * (isqrt_spec(n) + 1) == (r + 1) * (r + 1));
        }
    }
}

pub proof fn lemma_isqrt_unique(n: nat, r: int)
    requires
        0 <= r,
        r * r <= n,
        n < (r + 1) * (r + 1),
    ensures
        r == isqrt_spec(n),
{
    lemma_isqrt_correct(n);
    let s = isqrt_spec(n) as int;
    assert(r == s) by (nonlinear_arith)
        requires
            0 <= r,
            0 <= s,
            r * r <= n,
            n < (r + 1) * (r + 1),
            s * s <= n,
            n < (s + 1) * (s + 1),
    ;
}

/// Division rounded toward zero never grows a magnitude.
pub proof fn lemma_tdiv_abs(a: int, b: int)
    requires
        b != 0,
    ensures
        iabs(tdiv(a, b)) <= iabs(a),
        iabs(tdiv(a, b)) * iabs(b) <= iabs(a),
        a >= 0 && b > 0 ==> tdiv(a, b) == a / b,
{
    let ua = iabs(a);
    let ub = iabs(b);
    assert(ua / ub * ub <= ua && ua / ub <= ua) by (nonlinear_arith)
        requires
            ua >= 0,
            ub >= 1,
    ;
}

/// Exact division: a multiple of the divisor divides without remainder.
pub proof fn lemma_tdiv_exact(k: int, b: int)
    requires
        b > 0,
    ensures
        tdiv(k * b, b) == k,
{
    if k >= 0 {
        assert(k * b >= 0 && (k * b) / b == k) by (nonlinear_arith)
            requires
                b > 0,
                k >= 0,
        ;
    } else {
        assert(k * b < 0 && (-(k * b)) == (-k) * b && ((-k) * b) / b == -k) by (nonlinear_arith)
            requires
                b > 0,
                k < 0,
        ;
    }
}

/// Truncating division is monotone in the numerator, for a positive divisor.
pub proof fn lemma_tdiv_mono(a1: int, a2: int, b: int)
    requires
        b > 0,
        a1 <= a2,
    ensures
        tdiv(a1, b) <= tdiv(a2, b),
{
    if a1 >= 0 {
        assert(a1 / b <= a2 / b) by (nonlinear_arith)
            requires
                b > 0,
                0 <= a1 <= a2,
        ;
    } else if a2 < 0 {
        assert((-a2) / b <= (-a1) / b) by (nonlinear_arith)
            requires
                b > 0,
                a1 <= a2 < 0,
        ;
    } else {
        assert((-a1) / b >= 0 && a2 / b >= 0) by (nonlinear_arith)
            requires
                b > 0,
                a1 < 0 <= a2,
        ;
    }
}

/// Characterization of rounding toward zero on a nonnegative numerator.
pub proof fn lemma_tdiv_bounds(a: int, b: int)
    requires
        a >= 0,
        b > 0,
    ensures
        tdiv(a, b) >= 0,
        tdiv(a, b) * b <= a,
        a < (tdiv(a, b) + 1) * b,
{
    let q = a / b;
    vstd::arithmetic::div_mod::lemma_fundamental_div_mod(a, b);
    vstd::arithmetic::div_mod::lemma_mod_bound(a, b);
    assert(q >= 0) by (nonlinear_arith)
        requires
            a >= 0,
            b > 0,
            q == a / b,
    ;
    assert(q * b == b * q) by (nonlinear_arith);
    assert((q + 1) * b == q * b + b) by (nonlinear_arith);
}

/// A bound on both factors bounds the fixed-point product.
pub proof fn lemma_fmul_abs_le(a: int, b: int, ma: int, mb: int, m: int)
    requires
        iabs(a) <= ma,
        iabs(b) <= mb,
        ma * mb <= m * 65536,
    ensures
        iabs(fmul_spec(a, b)) <= m,
{
    lemma_tdiv_abs(a * b, 65536);
    assert(iabs(a * b) == iabs(a) * iabs(b)) by (nonlinear_arith);
    assert(iabs(a) * iabs(b) <= ma * mb) by (nonlinear_arith)
        requires
            0 <= iabs(a) <= ma,
            0 <= iabs(b) <= mb,
    ;
    assert(iabs(fmul_spec(a, b)) <= m) by (nonlinear_arith)
        requires
            iabs(fmul_spec(a, b)) * 65536 <= iabs(a * b),
            iabs(a * b) <= m * 65536,
    ;
}

/// Division rounded toward zero is odd in its numerator.
pub proof fn lemma_tdiv_neg(a: int, b: int)
    requires
        b != 0,
    ensures
        tdiv(-a, b) == -tdiv(a, b),
{
}

/// A fixed-point product with a factor in the unit interval shrinks toward zero
/// and keeps the unit interval.
pub proof fn lemma_fmul_unit(a: int, b: int)
    requires
        0 <= a,
        0 <= b <= FIX_ONE as int,
    ensures
        0 <= fmul_spec(a, b) <= a,
{
    assert(a * b >= 0 && a * b <= a * (FIX_ONE as int)) by (nonlinear_arith)
        requires
            0 <= a,
            0 <= b <= FIX_ONE as int,
    ;
    lemma_tdiv_mono(a * b, a * (FIX_ONE as int), FIX_ONE as int);
    lemma_tdiv_exact(a, FIX_ONE as int);
    assert(tdiv(a * b, FIX_ONE as int) >= 0) by (nonlinear_arith)
        requires
            a * b >= 0,
    ;
}

/// Scaling by one is exact.
pub proof fn lemma_fmul_one(a: int)
    ensures
        fmul_spec(a, FIX_ONE as int) == a,
        fmul_spec(FIX_ONE as int, a) == a,
{
    lemma_tdiv_exact(a, FIX_ONE as int);
    assert(a * (FIX_ONE as int) == (FIX_ONE as int) * a) by (nonlinear_arith);
}

/// Division rounded toward zero, computed through unsigned division.
pub fn tdiv_exec(a: i128, b: i128) -> (q: i128)
    requires
        b != 0,
        a != -0x8000_0000_0000_0000_0000_0000_0000_0000,
        b != -0x8000_0000_0000_0000_0000_0000_0000_0000,
    ensures
        q as int == tdiv(a as int, b as int),
        iabs(q as int) <= iabs(a as int),
{
    let ua: u128 = if a >= 0 {
        a as u128
    } else {
        (-a) as u128
    };
    let ub: u128 = if b >= 0 {
        b as u128
    } else {
        (-b) as u128
    };
    let uq: u128 = ua / ub;
    proof {
        assert(ua as int == iabs(a as int));
        assert(ub as int == iabs(b as int));
        lemma_tdiv_abs(a as int, b as int);
    }
    if (a >= 0) == (b >= 0) {
        uq as i128
    } else {
        -(uq as i128)
    }
}

/// Fixed-point multiplication.
///
/// The two admitted shapes of the precondition keep the 128-bit product and the
/// 64-bit result in range; every call site falls under one of them.
pub fn fmul(a: i64, b: i64) -> (r: i64)
    requires
        iabs(a as int) <= 0x8000_0000 && iabs(b as int) <= 0x8000_0000 || iabs(a as int)
            <= 0x10_0000_0000 && iabs(b as int) <= 0x400_0000 || iabs(a as int) <= 0x2_0000
            && iabs(b as int) <= 0x2000_0000_0000,
    ensures
        r as int == fmul_spec(a as int, b as int),
        iabs(r as int) * (FIX_ONE as int) <= iabs((a as int) * (b as int)),
        iabs(r as int) <= 0x4000_0000_0000,
{
    proof {
        assert(iabs((a as int) * (b as int)) <= 0x4000_0000_0000_0000) by (nonlinear_arith)
            requires
                iabs(a as int) <= 0x8000_0000 && iabs(b as int) <= 0x8000_0000 || iabs(a as int)
                    <= 0x10_0000_0000 && iabs(b as int) <= 0x400_0000 || iabs(a as int)
                    <= 0x2_0000 && iabs(b as int) <= 0x2000_0000_0000,
        ;
    }
    let p: i128 = (a as i128) * (b as i128);
    let q: i128 = tdiv_exec(p, 65536);
    proof {
        lemma_tdiv_abs(p as int, 65536);
    }
    q as i64
}

/// Fixed-point division; the divisor must not be zero.
pub fn fdiv(a: i64, b: i64) -> (r: i64)
    requires
        b != 0,
        iabs(a as int) <= 0x4000_0000_0000,
    ensures
        r as int == fdiv_spec(a as int, b as int),
        iabs(r as int) <= iabs(a as int) * (FIX_ONE as int),
{
    let n: i128 = (a as i128) * 65536;
    let q: i128 = tdiv_exec(n, b as i128);
    proof {
        lemma_tdiv_abs(n as int, b as int);
    }
    q as i64
}

/// Floor of the square root, by bisection.
pub fn isqrt(n: u128) -> (r: u64)
    requires
        (n as int) < 0x1_0000_0000_0000_0000_0000_0000_0000,
    ensures
        r as nat == isqrt_spec(n as nat),
        (r as int) * (r as int) <= n as int,
        (n as int) < ((r as int) + 1) * ((r as int) + 1),
{
    let mut lo: u128 = 0;
    let mut hi: u128 = 0x1000_0000_0000_0000;
    proof {
        assert((hi as int) * (hi as int) == 0x100_0000_0000_0000_0000_0000_0000_0000int)
            by (nonlinear_arith)
            requires
                hi == 0x1000_0000_0000_0000,
        ;
    }
    while lo + 1 < hi
        invariant
            lo < hi,
            hi <= 0x1000_0000_0000_0000,
            (lo as int) * (lo as int) <= n as int,
            (n as int) < (hi as int) * (hi as int),
        decreases hi - lo,
    {
        let mid: u128 = lo + (hi - lo) / 2;
        proof {
            assert((mid as int) * (mid as int) < 0x1_0000_0000_0000_0000_0000_0000_0000_0000int)
                by (nonlinear_arith)
                requires
                    0 <= mid as int,
                    (mid as int) < 0x1000_0000_0000_0000,
            ;
        }
        if mid * mid <= n {
            lo = mid;
        } else {
            hi = mid;
        }
    }
    proof {
        lemma_isqrt_unique(n as nat, lo as int);
        assert((lo as int) < 0x1_0000_0000_0000_0000) by (nonlinear_arith)
            requires
                (lo as int) * (lo as int) <= n as int,
                (n as int) < 0x1_0000_0000_0000_0000_0000_0000_0000,
                0 <= lo as int,
        ;
    }
    lo as u64
}

/// Fixed-point square root of a nonnegative scalar.
pub fn fsqrt(a: i64) -> (r: i64)
    requires
        0 <= a,
    ensures
        r as int == fsqrt_spec(a as int),
        0 <= r,
        (r as int) * (r as int) <= (a as int) * (FIX_ONE as int),
        (a as int) * (FIX_ONE as int) < ((r as int) + 1) * ((r as int) + 1),
{
    let n: u128 = (a as u128) * 65536;
    let s: u64 = isqrt(n);
    proof {
        assert((s as int) < 0x8000_0000_0000_0000) by (nonlinear_arith)
            requires
                (s as int) * (s as int) <= n as int,
                (n as int) < 0x1_0000_0000_0000_0000_0000,
                0 <= s as int,
        ;
    }
    s as i64
}

} // verus!
