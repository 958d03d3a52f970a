use vstd::prelude::*;

verus! {

use crate::{FX_ONE, FX_BOUND};

/// A value is a well-formed fixed-point scalar when it stays inside the
/// coordinate budget that keeps every product in this crate inside `i128`.
pub open spec fn fx_wf(v: i64) -> bool {
    -FX_BOUND <= v <= FX_BOUND
}

/// Mathematical product of two fixed-point scalars, scaled back down.
/// Spec division is Euclidean, so for the positive scale this is the floor.
pub open spec fn fx_mul_spec(a: int, b: int) -> int {
    (a * b) / (FX_ONE as int)
}

/// Mathematical quotient of two fixed-point scalars, scaled back up.
pub open spec fn fx_div_spec(a: int, b: int) -> int {
    (a * (FX_ONE as int)) / b
}

/// Floor of a fixed-point scalar, as a whole number of units.
pub open spec fn fx_floor_spec(v: int) -> int {
    v / (FX_ONE as int)
}

/// Fractional part of a fixed-point scalar, in fixed-point steps: `v` minus
/// its floor, always in `[0, FX_ONE)`.
pub open spec fn fx_frac_spec(v: int) -> int {
    v % (FX_ONE as int)
}

proof fn lemma_mul_bounds(a: int, b: int, m: int)
    by (nonlinear_arith)
    requires
        -m <= a <= m,
        -m <= b <= m,
        0 <= m,
    ensures
        -(m * m) <= a * b <= m * m,
{
}

proof fn lemma_div_shrinks(p: int, d: int, m: int)
    by (nonlinear_arith)
    requires
        d > 0,
        -m <= p <= m,
        0 <= m,
    ensures
        p / d * d <= p < p / d * d + d,
{
}

/// Floor quotient of `p` by the fixed-point scale, kept exact in `i128`.
fn div_fx_one_i128(p: i128) -> (q: i128)
    requires
        -0x4000_0000_0000_0000_0000_0000_0000_0000 < p,
    ensures
        q == p as int / (FX_ONE as int),
{
    let r = p.checked_div_euclid(FX_ONE as i128);
    proof {
        lemma_div_shrinks(p as int, FX_ONE as int, 0x8000_0000_0000_0000_0000_0000_0000_0000int);
        assert(i128::MIN <= p as int / (FX_ONE as int) <= i128::MAX) by (nonlinear_arith)
            requires
                -0x4000_0000_0000_0000_0000_0000_0000_0000 < p as int,
                p as int <= i128::MAX,
        ;
    }
    r.unwrap()
}

/// Fixed-point multiplication: exact integer product, floored back to scale.
pub fn fx_mul(a: i64, b: i64) -> (r: i64)
    requires
        -FX_BOUND * FX_ONE <= a * b < (FX_BOUND + 1) * FX_ONE,
    ensures
        r == fx_mul_spec(a as int, b as int),
        fx_wf(r),
{
    let p: i128 = (a as i128) * (b as i128);
    let q = div_fx_one_i128(p);
    proof {
        lemma_div_in_bound(p as int, FX_ONE as int, FX_BOUND as int);
    }
    q as i64
}

proof fn lemma_div_in_bound(p: int, d: int, m: int)
    by (nonlinear_arith)
    requires
        d > 0,
        -m * d <= p < (m + 1) * d,
        0 <= m,
    ensures
        -m <= p / d <= m,
{
}

/// Fixed-point division: numerator rescaled, then floored by the divisor.
pub fn fx_div(a: i64, b: i64) -> (r: i64)
    requires
        b != 0,
        -FX_BOUND <= (a * FX_ONE) / (b as int) <= FX_BOUND,
    ensures
        r == fx_div_spec(a as int, b as int),
        fx_wf(r),
{
    let p: i128 = (a as i128) * (FX_ONE as i128);
    let q = p.checked_div_euclid(b as i128);
    proof {
        assert(p as int / (b as int) == (a * FX_ONE) / (b as int));
    }
    q.unwrap() as i64
}

/// Whole-unit floor of a fixed-point scalar.
pub fn fx_floor(v: i64) -> (r: i64)
    requires
        fx_wf(v),
    ensures
        r == fx_floor_spec(v as int),
        r * FX_ONE <= v < (r + 1) * FX_ONE,
        -FX_BOUND <= r <= FX_BOUND,
{
    let q = v.checked_div_euclid(FX_ONE);
    proof {
        lemma_div_shrinks(v as int, FX_ONE as int, FX_BOUND as int);
        lemma_div_in_bound(v as int, FX_ONE as int, FX_BOUND as int);
        assert(FX_BOUND * FX_ONE >= FX_BOUND);
    }
    q.unwrap()
}

/// Fractional part of a fixed-point scalar, in `[0, FX_ONE)`.
pub fn fx_frac(v: i64) -> (r: i64)
    requires
        fx_wf(v),
    ensures
        r == fx_frac_spec(v as int),
        0 <= r < FX_ONE,
        v == fx_floor_spec(v as int) * FX_ONE + r,
{
    let m = v.checked_rem_euclid(FX_ONE);
    proof {
        lemma_div_shrinks(v as int, FX_ONE as int, FX_BOUND as int);
        assert(v as int % (FX_ONE as int) == v - v as int / (FX_ONE as int) * FX_ONE);
    }
    m.unwrap()
}

/// Whole-unit floor of a nonnegative scalar of any magnitude.
pub fn fx_floor_nonneg(v: i64) -> (r: i64)
    requires
        v >= 0,
    ensures
        r == (v as int) / (FX_ONE as int),
        0 <= r <= v,
{
    let q = v.checked_div_euclid(FX_ONE);
    proof {
        lemma_div_shrinks(v as int, FX_ONE as int, i64::MAX as int);
        assert(0 <= (v as int) / (FX_ONE as int) <= v as int) by (nonlinear_arith)
            requires
                v >= 0,
                FX_ONE == 100000,
        ;
    }
    q.unwrap()
}

/// Whole-unit ceiling of a fixed-point scalar.
pub fn fx_ceil(v: i64) -> (r: i64)
    requires
        fx_wf(v),
    ensures
        r == ((v as int) + FX_ONE - 1) / (FX_ONE as int),
        -FX_BOUND <= r <= FX_BOUND,
{
    let q = (v - 1).checked_div_euclid(FX_ONE);
    proof {
        assert(((v as int) - 1 + FX_ONE) / (FX_ONE as int) == ((v as int) - 1) / (FX_ONE as int)
            + 1) by (nonlinear_arith)
            requires
                FX_ONE == 100000,
        ;
        lemma_div_in_bound((v as int) - 1, FX_ONE as int, crate::UNIT_BOUND as int + 1);
    }
    q.unwrap() + 1
}

/// `r` is the integer square root of `n` when `r*r <= n < (r+1)*(r+1)`.
pub open spec fn is_isqrt(n: int, r: int) -> bool {
    0 <= r && r * r <= n && n < (r + 1) * (r + 1)
}

/// Integer square root by bisection on the answer.
pub fn isqrt_u128(n: u128) -> (r: u64)
    ensures
        is_isqrt(n as int, r as int),
{
    let mut lo: u128 = 0;
    let mut hi: u128 = 0x1_0000_0000_0000_0000;
    proof {
        assert((0x1_0000_0000_0000_0000 as int) * (0x1_0000_0000_0000_0000 as int) > n as int);
    }
    while lo + 1 < hi
        invariant
            lo < hi,
            hi <= 0x1_0000_0000_0000_0000,
            lo * lo <= n as int,
            (n as int) < hi * hi,
        decreases hi - lo,
    {
        let mid = lo + (hi - lo) / 2;
        proof {
            assert(lo < mid < hi);
            assert(mid * mid <= 0xffff_ffff_ffff_ffff * 0xffff_ffff_ffff_ffff) by (nonlinear_arith)
                requires
                    0 <= mid as int <= 0xffff_ffff_ffff_ffff,
            ;
        }
        if mid * mid <= n {
            lo = mid;
        } else {
            hi = mid;
        }
    }
    proof {
        assert(lo as int + 1 == hi as int);
        assert(lo * lo <= 0xffff_ffff_ffff_ffff * 0xffff_ffff_ffff_ffff) by (nonlinear_arith)
            requires
                0 <= lo as int <= 0xffff_ffff_ffff_ffff,
        ;
    }
    lo as u64
}

/// A scalar pulled back into the coordinate budget: values beyond it are
/// reported saturated at its edge.
pub open spec fn sat_fx(v: int) -> int {
    if v < -FX_BOUND {
        -(FX_BOUND as int)
    } else if v > FX_BOUND {
        FX_BOUND as int
    } else {
        v
    }
}

/// Fixed-point multiplication that saturates at the coordinate budget.
pub fn fx_mul_sat(a: i64, b: i64) -> (r: i64)
    ensures
        r == sat_fx(fx_mul_spec(a as int, b as int)),
        fx_wf(r),
{
    proof {
        crate::misc::lemma_i64_prod_in_i128(a as int, b as int);
    }
    let p: i128 = (a as i128) * (b as i128);
    let q = div_fx_one_i128(p);
    if q < -(FX_BOUND as i128) {
        -FX_BOUND
    } else if q > FX_BOUND as i128 {
        FX_BOUND
    } else {
        q as i64
    }
}

/// A nonnegative parametric fraction turned into a fixed-point distance,
/// rounded down and saturated at the coordinate budget.
pub open spec fn frac_to_fx(dn: int, dd: int) -> int {
    if (dn * FX_ONE) / dd > FX_BOUND {
        FX_BOUND as int
    } else {
        (dn * FX_ONE) / dd
    }
}

/// Evaluate a parametric fraction as a saturated fixed-point distance.
pub fn frac_to_fx_exec(dn: i64, dd: i64) -> (r: i64)
    requires
        dn >= 0,
        dd >= 1,
    ensures
        r == frac_to_fx(dn as int, dd as int),
        0 <= r <= FX_BOUND,
{
    proof {
        crate::misc::lemma_i64_prod_in_i128(dn as int, FX_ONE as int);
    }
    let p: i128 = (dn as i128) * (FX_ONE as i128);
    let q = p.checked_div_euclid(dd as i128);
    proof {
        assert(0 <= p as int / (dd as int) <= p) by (nonlinear_arith)
            requires
                p >= 0,
                dd >= 1,
        ;
    }
    let q = q.unwrap();
    if q > FX_BOUND as i128 {
        FX_BOUND
    } else {
        q as i64
    }
}

/// The integer square root, as a mathematical function: meaningful for
/// nonnegative arguments, where exactly one root satisfies `is_isqrt`.
pub open spec fn sqrt_floor(n: int) -> int {
    choose|r: int| is_isqrt(n, r)
}

/// Any witness of `is_isqrt` is the `sqrt_floor`.
pub proof fn lemma_sqrt_floor(n: int, r: int)
    requires
        is_isqrt(n, r),
    ensures
        sqrt_floor(n) == r,
{
    assert(is_isqrt(n, sqrt_floor(n))) by {
        assert(exists|x: int| is_isqrt(n, x));
    }
    lemma_isqrt_unique(n, r, sqrt_floor(n));
}

/// Absolute value.
pub open spec fn iabs(a: int) -> int {
    if a < 0 {
        -a
    } else {
        a
    }
}

/// Square.
pub open spec fn sq(a: int) -> int {
    a * a
}

/// Larger of two.
pub open spec fn imax(a: int, b: int) -> int {
    if a >= b {
        a
    } else {
        b
    }
}

/// Smaller of two.
pub open spec fn imin(a: int, b: int) -> int {
    if a <= b {
        a
    } else {
        b
    }
}

/// The integer square root is the unique such `r`.
pub proof fn lemma_isqrt_unique(n: int, r1: int, r2: int)
    by (nonlinear_arith)
    requires
        is_isqrt(n, r1),
        is_isqrt(n, r2),
    ensures
        r1 == r2,
{
}

/// Comparing a square root against a bound is comparing against its square.
pub proof fn lemma_isqrt_lt(n: int, r: int, b: int)
    by (nonlinear_arith)
    requires
        is_isqrt(n, r),
        0 <= b,
    ensures
        (r < b) <==> (n < b * b),
{
}

} // verus!
