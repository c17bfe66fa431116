//! Fixed-point scalar arithmetic: floor division, integer square root and
//! coordinate saturation.  Every geometric routine in the crate rounds with
//! these helpers, so their contracts are the ground truth for all rounding.

use vstd::prelude::*;

verus! {

/// Fixed-point units per world unit.  One unit is also the minimum positive
/// thickness to which degenerate bounding-box intervals are padded.
pub const SCALE: i128 = 10_000;

/// Coordinates produced by ray evaluation saturate at this magnitude, far
/// beyond any representable scene but small enough that follow-up products
/// stay inside `i128`.
pub const COORD_SAT: i128 = 2_000_000_000;

/// Magnitude bound under which `fdiv` accepts its arguments.
pub const FDIV_LIMIT: i128 = 0x2000_0000_0000_0000_0000_0000_0000_0000;

/// Floor division: rounds toward negative infinity.  Defined through
/// division of nonnegative values only, so its meaning does not depend on
/// any solver convention for signed division.
pub open spec fn spec_fdiv(a: int, b: int) -> int
    recommends
        b != 0,
{
    if b > 0 {
        if a >= 0 {
            a / b
        } else {
            -((-a + b - 1) / b)
        }
    } else {
        if a <= 0 {
            (-a) / (-b)
        } else {
            -((a + (-b) - 1) / (-b))
        }
    }
}

/// The defining property of floor division for a positive divisor.
pub proof fn lemma_fdiv_bounds(a: int, b: int)
    requires
        b > 0,
    ensures
        spec_fdiv(a, b) * b <= a,
        a < (spec_fdiv(a, b) + 1) * b,
{
    if a >= 0 {
        let q = a / b;
        let r = a % b;
        assert(q * b + r == a && 0 <= r < b) by (nonlinear_arith)
            requires a >= 0 && b > 0 && q == a / b && r == a % b;
        assert((q + 1) * b == q * b + b) by (nonlinear_arith);
    } else {
        let n = -a + b - 1;
        let q = n / b;
        let r = n % b;
        assert(q * b + r == n && 0 <= r < b) by (nonlinear_arith)
            requires n >= 0 && b > 0 && q == n / b && r == n % b;
        assert((-q) * b == -(q * b)) by (nonlinear_arith);
        assert((-q + 1) * b == -(q * b) + b) by (nonlinear_arith);
    }
}

/// A value `t` is at most `fdiv(a, b)` exactly when `t * b` is at most `a`.
pub proof fn lemma_fdiv_le(a: int, b: int, t: int)
    requires
        b > 0,
    ensures
        t <= spec_fdiv(a, b) <==> t * b <= a,
{
    lemma_fdiv_bounds(a, b);
    let q = spec_fdiv(a, b);
    if t <= q {
        assert(t * b <= q * b) by (nonlinear_arith)
            requires t <= q && b > 0;
    }
    if t * b <= a {
        assert(t <= q) by (nonlinear_arith)
            requires t * b <= a && a < (q + 1) * b && b > 0;
    }
}

/// Floor division by a positive divisor keeps the result between zero and
/// the dividend.
pub proof fn lemma_fdiv_within(a: int, b: int)
    requires
        b >= 1,
    ensures
        a >= 0 ==> 0 <= spec_fdiv(a, b) <= a,
        a < 0 ==> a <= spec_fdiv(a, b) <= 0,
{
    lemma_fdiv_bounds(a, b);
    let q = spec_fdiv(a, b);
    assert(q * b <= a && a < (q + 1) * b);
    if a >= 0 {
        assert(0 <= q && q <= a) by (nonlinear_arith)
            requires b >= 1 && a >= 0 && q * b <= a && a < (q + 1) * b;
    } else {
        assert(a <= q && q <= 0) by (nonlinear_arith)
            requires b >= 1 && a < 0 && q * b <= a && a < (q + 1) * b;
    }
}

/// The product of values bounded in magnitude is bounded by the product of
/// the bounds.
pub proof fn lemma_abs_mul(u: int, v: int, m: int, n: int)
    requires
        m > 0,
        n > 0,
        -m < u < m,
        -n < v < n,
    ensures
        -m * n < u * v < m * n,
{
    assert(-m * n < u * v < m * n) by (nonlinear_arith)
        requires m > 0 && n > 0 && -m < u < m && -n < v < n;
}

/// Floor division is monotone in the dividend.
pub proof fn lemma_fdiv_mono(a1: int, a2: int, b: int)
    requires
        b > 0,
        a1 <= a2,
    ensures
        spec_fdiv(a1, b) <= spec_fdiv(a2, b),
{
    lemma_fdiv_bounds(a1, b);
    lemma_fdiv_le(a2, b, spec_fdiv(a1, b));
    assert(spec_fdiv(a1, b) * b <= a1);
}

/// Floor division, rounding toward negative infinity.
pub fn fdiv(a: i128, b: i128) -> (r: i128)
    requires
        b != 0,
        -FDIV_LIMIT < a < FDIV_LIMIT,
        -FDIV_LIMIT < b < FDIV_LIMIT,
    ensures
        r == spec_fdiv(a as int, b as int),
{
    let am: i128 = if a < 0 { -a } else { a };
    let bm: i128 = if b < 0 { -b } else { b };
    let q: i128 = am / bm;
    let rem: i128 = am % bm;
    proof {
        assert(q * bm + rem == am && 0 <= rem < bm) by (nonlinear_arith)
            requires am >= 0 && bm > 0 && q == am / bm && rem == am % bm;
    }
    if (a < 0) == (b < 0) {
        proof {
            if a >= 0 && b > 0 {
                assert(q == spec_fdiv(a as int, b as int));
            } else {
                assert(am == -a && bm == -b);
                assert((-a) / (-b) == q);
            }
        }
        q
    } else {
        let up: i128 = if rem != 0 { 1 } else { 0 };
        proof {
            let ai = a as int;
            let bi = b as int;
            if a < 0 && b > 0 {
                // am == -a; fdiv is -((-a + b - 1) / b)
                if rem == 0 {
                    assert(((-ai) + bi - 1) / bi == q) by (nonlinear_arith)
                        requires bi > 0 && q * bi == -ai && q >= 0;
                } else {
                    assert(((-ai) + bi - 1) / bi == q + 1) by (nonlinear_arith)
                        requires bi > 0 && q * bi + rem == -ai && 0 < rem < bi && q >= 0;
                }
            } else {
                // a > 0, b < 0; am == a, bm == -b; fdiv is -((a + (-b) - 1) / (-b))
                if rem == 0 {
                    assert((ai + (-bi) - 1) / (-bi) == q) by (nonlinear_arith)
                        requires bi < 0 && q * (-bi) == ai && q >= 0;
                } else {
                    assert((ai + (-bi) - 1) / (-bi) == q + 1) by (nonlinear_arith)
                        requires bi < 0 && q * (-bi) + rem == ai && 0 < rem < -bi && q >= 0;
                }
            }
        }
        -(q + up)
    }
}

/// Saturation of a wide intermediate coordinate into the representable range.
pub open spec fn spec_sat(x: int) -> int {
    if x > COORD_SAT {
        COORD_SAT as int
    } else if x < -COORD_SAT {
        -COORD_SAT as int
    } else {
        x
    }
}

/// Saturate a wide intermediate coordinate into the representable range.
pub fn sat(x: i128) -> (r: i64)
    ensures
        r == spec_sat(x as int),
{
    if x > COORD_SAT {
        COORD_SAT as i64
    } else if x < -COORD_SAT {
        (-COORD_SAT) as i64
    } else {
        x as i64
    }
}

/// Integer square root: the greatest `r` with `r * r <= n`.
pub fn isqrt(n: u128) -> (r: u128)
    requires
        n < 0x4000_0000_0000_0000_0000_0000_0000_0000,
    ensures
        r * r <= n,
        n < (r + 1) * (r + 1),
        r < 0x8000_0000_0000_0000,
{
    let mut lo: u128 = 0;
    let mut hi: u128 = 0x8000_0000_0000_0000;
    proof {
        assert(hi * hi == 0x4000_0000_0000_0000_0000_0000_0000_0000);
    }
    while hi - lo > 1
        invariant
            lo < hi <= 0x8000_0000_0000_0000,
            lo * lo <= n,
            n < hi * hi,
        decreases hi - lo,
    {
        let mid: u128 = lo + (hi - lo) / 2;
        proof {
            assert(lo < mid < hi);
            assert(mid * mid < 0x4000_0000_0000_0000_0000_0000_0000_0000) by (nonlinear_arith)
                requires mid < 0x8000_0000_0000_0000;
        }
        if mid * mid <= n {
            lo = mid;
        } else {
            hi = mid;
        }
    }
    lo
}

/// The lesser of two wide integers.
pub fn min_i128(a: i128, b: i128) -> (r: i128)
    ensures
        r == if a < b { a } else { b },
{
    if a < b {
        a
    } else {
        b
    }
}

/// The greater of two wide integers.
pub fn max_i128(a: i128, b: i128) -> (r: i128)
    ensures
        r == if a < b { b } else { a },
{
    if a < b {
        b
    } else {
        a
    }
}

} // verus!
