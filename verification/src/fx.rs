use vstd::prelude::*;

verus! {

use vstd::arithmetic::div_mod::{
    lemma_div_is_ordered,
    lemma_div_by_multiple,
    lemma_div_pos_is_pos,
};

/// Number of fixed-point steps per world unit: every scalar and every vector
/// component in this crate is stored as a count of 1/65536ths of a unit.
pub const SCALE: i64 = 65536;

/// Smallest pre-normalization length (in fixed-point steps, i.e. 1/16 of a
/// world unit) for which `normalize` still guarantees a unit-length result.
pub const Q_MIN: i64 = 4096;

/// Machine cap on a plane crossing's ray parameter: 8192 world units.  This
/// is a fixed-point range limit, not a visibility rule: world coordinates
/// reach only 1024 units, so every crossing this far out comes from a ray
/// nearly parallel to its plane.  It keeps hit positions representable.
pub const T_LIMIT: i64 = 536870912;

/// Largest magnitude allowed for a world coordinate: 1024 world units.
pub const COORD_MAX: i64 = 67108864;

/// Largest component magnitude a reported hit position can reach: the
/// coordinate bound plus the farthest ray crossing the parameter cap allows.
pub const POS_MAX: i64 = 671088640;

/// Truncating (round-toward-zero) integer division, the semantics of `/` on
/// the machine integers; on nonnegative operands it agrees with `/` on `int`.
pub open spec fn tdiv(a: int, b: int) -> int
    recommends
        b != 0,
{
    if b == 0 {
        0
    } else if a >= 0 && b > 0 {
        a / b
    } else if a < 0 && b > 0 {
        -((-a) / b)
    } else if a >= 0 {
        -(a / (-b))
    } else {
        (-a) / (-b)
    }
}

/// Division as the hardware performs it, rounding toward zero.
pub fn div_trunc(a: i64, b: i64) -> (r: i64)
    requires
        b != 0,
        a > i64::MIN,
        b > i64::MIN,
    ensures
        r == tdiv(a as int, b as int),
{
    let am: i64 = if a < 0 { -a } else { a };
    let bm: i64 = if b < 0 { -b } else { b };
    let q = am / bm;
    if (a < 0) != (b < 0) { -q } else { q }
}

/// A quotient is no larger in magnitude than any bound the dividend stays
/// under, divisor-many times.
pub proof fn lemma_tdiv_bound(a: int, b: int, c: int)
    requires
        b > 0,
        0 <= c,
        -(b * c) <= a <= b * c,
    ensures
        -c <= tdiv(a, b) <= c,
{
    assert(b * c == c * b) by (nonlinear_arith);
    if a >= 0 {
        lemma_div_pos_is_pos(a, b);
        lemma_div_is_ordered(a, c * b, b);
        lemma_div_by_multiple(c, b);
    } else {
        lemma_div_pos_is_pos(-a, b);
        lemma_div_is_ordered(-a, c * b, b);
        lemma_div_by_multiple(c, b);
    }
}

/// A quotient of nonnegative by positive is nonnegative.
pub proof fn lemma_tdiv_nonneg(a: int, b: int)
    requires
        a >= 0,
        b > 0,
    ensures
        tdiv(a, b) >= 0,
{
    lemma_div_pos_is_pos(a, b);
}

/// Magnitude bound for a product, from bounds on the factors.
pub proof fn lemma_mul_bound(a: int, b: int, amax: int, bmax: int)
    by (nonlinear_arith)
    requires
        -amax <= a <= amax,
        -bmax <= b <= bmax,
        0 <= amax,
        0 <= bmax,
    ensures
        -(amax * bmax) <= a * b <= amax * bmax,
{
}

/// Largest integer whose square does not exceed `n` (0 for negative `n`).
pub open spec fn sqrt_floor(n: int) -> int
    decreases n,
{
    if n < 1 {
        0
    } else {
        let r = 2 * sqrt_floor(n / 4);
        if (r + 1) * (r + 1) <= n {
            r + 1
        } else {
            r
        }
    }
}

/// `sqrt_floor` brackets its argument between consecutive squares.
pub proof fn lemma_sqrt_floor(n: int)
    requires
        n >= 0,
    ensures
        0 <= sqrt_floor(n),
        sqrt_floor(n) * sqrt_floor(n) <= n,
        n < (sqrt_floor(n) + 1) * (sqrt_floor(n) + 1),
    decreases n,
{
    if n < 1 {
    } else {
        lemma_sqrt_floor(n / 4);
        let r0 = sqrt_floor(n / 4);
        let r = 2 * r0;
        assert(4 * (n / 4) <= n < 4 * (n / 4) + 4);
        assert(r * r <= n && n < (r + 2) * (r + 2)) by (nonlinear_arith)
            requires
                0 <= r0,
                r0 * r0 <= n / 4,
                n / 4 < (r0 + 1) * (r0 + 1),
                4 * (n / 4) <= n < 4 * (n / 4) + 4,
                r == 2 * r0,
        ;
    }
}

/// Two integers bracketed by the same consecutive squares are equal.
proof fn lemma_sqrt_unique(n: int, p: int, q: int)
    by (nonlinear_arith)
    requires
        0 <= p,
        0 <= q,
        p * p <= n < (p + 1) * (p + 1),
        q * q <= n < (q + 1) * (q + 1),
    ensures
        p == q,
{
}

/// Integer square root by bisection.
pub fn isqrt(n: i64) -> (r: i64)
    requires
        n >= 0,
    ensures
        r == sqrt_floor(n as int),
        0 <= r,
        r * r <= n,
        n < (r + 1) * (r + 1),
{
    let mut lo: i64 = 0;
    let mut hi: i64 = 3037000499;
    proof {
        assert((3037000499 + 1) * (3037000499 + 1) > i64::MAX);
    }
    while lo < hi
        invariant
            0 <= lo <= hi <= 3037000499,
            lo * lo <= n,
            n < (hi + 1) * (hi + 1),
        decreases hi - lo,
    {
        let mid = lo + (hi - lo + 1) / 2;
        proof {
            assert(lo < mid <= hi);
            assert(mid * mid <= 3037000499 * 3037000499) by (nonlinear_arith)
                requires
                    0 <= mid <= 3037000499,
            ;
        }
        if mid * mid <= n {
            lo = mid;
        } else {
            hi = mid - 1;
        }
    }
    proof {
        lemma_sqrt_floor(n as int);
        lemma_sqrt_unique(n as int, lo as int, sqrt_floor(n as int));
    }
    lo
}

} // verus!
