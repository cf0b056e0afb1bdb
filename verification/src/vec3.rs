use vstd::prelude::*;

verus! {

use crate::fx::{
    SCALE, Q_MIN, tdiv, div_trunc, isqrt, sqrt_floor,
    lemma_mul_bound, lemma_tdiv_bound, lemma_sqrt_floor,
};

/// Mathematical model of a vector: the three components as unbounded integers,
/// each counting fixed-point steps of 1/65536 of a world unit.
pub struct V3 {
    pub x: int,
    pub y: int,
    pub z: int,
}

/// A three-component vector in fixed-point coordinates.
#[derive(Clone, Copy, PartialEq, Eq, Structural, Debug)]
pub struct Vec3 {
    pub x: i64,
    pub y: i64,
    pub z: i64,
}

impl View for Vec3 {
    type V = V3;

    open spec fn view(&self) -> V3 {
        V3 { x: self.x as int, y: self.y as int, z: self.z as int }
    }
}

/// Every component within `m` of zero.
pub open spec fn bounded(v: V3, m: int) -> bool {
    -m <= v.x <= m && -m <= v.y <= m && -m <= v.z <= m
}

pub open spec fn spec_add(a: V3, b: V3) -> V3 {
    V3 { x: a.x + b.x, y: a.y + b.y, z: a.z + b.z }
}

pub open spec fn spec_sub(a: V3, b: V3) -> V3 {
    V3 { x: a.x - b.x, y: a.y - b.y, z: a.z - b.z }
}

/// Componentwise product with the fixed-point scalar `k`, rescaled.
pub open spec fn spec_scale(v: V3, k: int) -> V3 {
    V3 {
        x: tdiv(v.x * k, SCALE as int),
        y: tdiv(v.y * k, SCALE as int),
        z: tdiv(v.z * k, SCALE as int),
    }
}

/// Dot product without rescaling: the result counts squared fixed-point
/// steps, i.e. it carries a factor of SCALE^2 rather than SCALE.
pub open spec fn spec_dot(a: V3, b: V3) -> int {
    a.x * b.x + a.y * b.y + a.z * b.z
}

/// Squared length in squared fixed-point steps.
pub open spec fn spec_norm_sq(v: V3) -> int {
    spec_dot(v, v)
}

/// Cross product, rescaled back to fixed-point steps.
pub open spec fn spec_cross(a: V3, b: V3) -> V3 {
    V3 {
        x: tdiv(a.y * b.z - a.z * b.y, SCALE as int),
        y: tdiv(a.z * b.x - a.x * b.z, SCALE as int),
        z: tdiv(a.x * b.y - a.y * b.x, SCALE as int),
    }
}

/// The vector rescaled to length one (SCALE fixed-point steps), by truncating
/// division through the integer square root of its squared length.
pub open spec fn spec_normalize(v: V3) -> V3 {
    let q = sqrt_floor(spec_norm_sq(v));
    V3 {
        x: tdiv(v.x * SCALE, q),
        y: tdiv(v.y * SCALE, q),
        z: tdiv(v.z * SCALE, q),
    }
}

/// A unit vector up to fixed-point rounding: every component at most one,
/// and the squared length within a few thousandths of one.
pub open spec fn is_unit(v: V3) -> bool {
    &&& bounded(v, SCALE as int)
    &&& (SCALE * SCALE - 6 * SCALE) <= spec_norm_sq(v) <= (SCALE * SCALE + 32 * SCALE)
}

impl Vec3 {
    pub fn add(self, o: Vec3) -> (r: Vec3)
        requires
            bounded(self@, 1152921504606846976),
            bounded(o@, 1152921504606846976),
        ensures
            r@ == spec_add(self@, o@),
    {
        Vec3 { x: self.x + o.x, y: self.y + o.y, z: self.z + o.z }
    }

    pub fn sub(self, o: Vec3) -> (r: Vec3)
        requires
            bounded(self@, 1152921504606846976),
            bounded(o@, 1152921504606846976),
        ensures
            r@ == spec_sub(self@, o@),
    {
        Vec3 { x: self.x - o.x, y: self.y - o.y, z: self.z - o.z }
    }

    pub fn scale(self, k: i64) -> (r: Vec3)
        requires
            bounded(self@, 1073741824),
            -1073741824 <= k <= 1073741824,
        ensures
            r@ == spec_scale(self@, k as int),
    {
        proof {
            lemma_mul_bound(self.x as int, k as int, 1073741824, 1073741824);
            lemma_mul_bound(self.y as int, k as int, 1073741824, 1073741824);
            lemma_mul_bound(self.z as int, k as int, 1073741824, 1073741824);
        }
        Vec3 {
            x: div_trunc(self.x * k, SCALE),
            y: div_trunc(self.y * k, SCALE),
            z: div_trunc(self.z * k, SCALE),
        }
    }

    pub fn dot_raw(self, o: Vec3) -> (r: i64)
        requires
            bounded(self@, 1073741824),
            bounded(o@, 1073741824),
        ensures
            r == spec_dot(self@, o@),
    {
        proof {
            lemma_mul_bound(self.x as int, o.x as int, 1073741824, 1073741824);
            lemma_mul_bound(self.y as int, o.y as int, 1073741824, 1073741824);
            lemma_mul_bound(self.z as int, o.z as int, 1073741824, 1073741824);
        }
        self.x * o.x + self.y * o.y + self.z * o.z
    }

    pub fn norm_sq_raw(self) -> (r: i64)
        requires
            bounded(self@, 1073741824),
        ensures
            r == spec_norm_sq(self@),
    {
        self.dot_raw(self)
    }

    pub fn cross(self, o: Vec3) -> (r: Vec3)
        requires
            bounded(self@, 1073741824),
            bounded(o@, 1073741824),
        ensures
            r@ == spec_cross(self@, o@),
    {
        proof {
            lemma_mul_bound(self.x as int, o.x as int, 1073741824, 1073741824);
            lemma_mul_bound(self.y as int, o.y as int, 1073741824, 1073741824);
            lemma_mul_bound(self.z as int, o.z as int, 1073741824, 1073741824);
            lemma_mul_bound(o.x as int, self.x as int, 1073741824, 1073741824);
            lemma_mul_bound(o.y as int, self.y as int, 1073741824, 1073741824);
            lemma_mul_bound(o.z as int, self.z as int, 1073741824, 1073741824);
            lemma_mul_bound(self.y as int, o.z as int, 1073741824, 1073741824);
            lemma_mul_bound(self.z as int, o.y as int, 1073741824, 1073741824);
            lemma_mul_bound(self.z as int, o.x as int, 1073741824, 1073741824);
            lemma_mul_bound(self.x as int, o.z as int, 1073741824, 1073741824);
            lemma_mul_bound(self.x as int, o.y as int, 1073741824, 1073741824);
            lemma_mul_bound(self.y as int, o.x as int, 1073741824, 1073741824);
        }
        Vec3 {
            x: div_trunc(self.y * o.z - self.z * o.y, SCALE),
            y: div_trunc(self.z * o.x - self.x * o.z, SCALE),
            z: div_trunc(self.x * o.y - self.y * o.x, SCALE),
        }
    }

    /// Rescale to unit length.  The result is exact truncating fixed-point
    /// arithmetic; when the input is at least a sixteenth of a world unit
    /// long, the result's squared length is one up to a small rounding slack.
    pub fn normalize(self) -> (r: Vec3)
        requires
            bounded(self@, 1073741824),
            spec_norm_sq(self@) >= 1,
        ensures
            r@ == spec_normalize(self@),
            bounded(r@, SCALE as int),
            spec_norm_sq(self@) >= Q_MIN * Q_MIN ==> is_unit(r@),
    {
        let n2 = self.norm_sq_raw();
        let q = isqrt(n2);
        proof {
            assert(q >= 1) by (nonlinear_arith)
                requires
                    q >= 0,
                    n2 >= 1,
                    n2 < (q + 1) * (q + 1),
            ;
            lemma_component_le_root(self.x as int, self.y as int, self.z as int, q as int);
            lemma_mul_bound(self.x as int, SCALE as int, q as int, SCALE as int);
            lemma_mul_bound(self.y as int, SCALE as int, q as int, SCALE as int);
            lemma_mul_bound(self.z as int, SCALE as int, q as int, SCALE as int);
            lemma_tdiv_bound(self.x * SCALE, q as int, SCALE as int);
            lemma_tdiv_bound(self.y * SCALE, q as int, SCALE as int);
            lemma_tdiv_bound(self.z * SCALE, q as int, SCALE as int);
        }
        let r = Vec3 {
            x: div_trunc(self.x * SCALE, q),
            y: div_trunc(self.y * SCALE, q),
            z: div_trunc(self.z * SCALE, q),
        };
        proof {
            if spec_norm_sq(self@) >= Q_MIN * Q_MIN {
                lemma_normalize_unit(self@, q as int, r@);
            }
        }
        r
    }
}

/// A dot product is bounded by three times the product of component bounds.
pub proof fn lemma_dot_bound(a: V3, b: V3, ma: int, mb: int)
    requires
        bounded(a, ma),
        bounded(b, mb),
        0 <= ma,
        0 <= mb,
    ensures
        -3 * (ma * mb) <= spec_dot(a, b) <= 3 * (ma * mb),
{
    lemma_mul_bound(a.x, b.x, ma, mb);
    lemma_mul_bound(a.y, b.y, ma, mb);
    lemma_mul_bound(a.z, b.z, ma, mb);
}

/// Componentwise scaling keeps components within `c` when `mv * mk` fits in
/// `SCALE * c`.
pub proof fn lemma_scale_bound(v: V3, k: int, mv: int, mk: int, c: int)
    requires
        bounded(v, mv),
        -mk <= k <= mk,
        0 <= mv,
        0 <= mk,
        0 <= c,
        mv * mk <= SCALE * c,
    ensures
        bounded(spec_scale(v, k), c),
{
    lemma_mul_bound(v.x, k, mv, mk);
    lemma_mul_bound(v.y, k, mv, mk);
    lemma_mul_bound(v.z, k, mv, mk);
    lemma_tdiv_bound(v.x * k, SCALE as int, c);
    lemma_tdiv_bound(v.y * k, SCALE as int, c);
    lemma_tdiv_bound(v.z * k, SCALE as int, c);
}

/// Cross product components stay within `c` when twice `ma * mb` fits in
/// `SCALE * c`.
pub proof fn lemma_cross_bound(a: V3, b: V3, ma: int, mb: int, c: int)
    requires
        bounded(a, ma),
        bounded(b, mb),
        0 <= ma,
        0 <= mb,
        0 <= c,
        2 * (ma * mb) <= SCALE * c,
    ensures
        bounded(spec_cross(a, b), c),
{
    lemma_mul_bound(a.y, b.z, ma, mb);
    lemma_mul_bound(a.z, b.y, ma, mb);
    lemma_mul_bound(a.z, b.x, ma, mb);
    lemma_mul_bound(a.x, b.z, ma, mb);
    lemma_mul_bound(a.x, b.y, ma, mb);
    lemma_mul_bound(a.y, b.x, ma, mb);
    lemma_tdiv_bound(a.y * b.z - a.z * b.y, SCALE as int, c);
    lemma_tdiv_bound(a.z * b.x - a.x * b.z, SCALE as int, c);
    lemma_tdiv_bound(a.x * b.y - a.y * b.x, SCALE as int, c);
}

/// Each component of a vector is bounded by the integer square root of its
/// squared length.
proof fn lemma_component_le_root(vx: int, vy: int, vz: int, q: int)
    by (nonlinear_arith)
    requires
        0 <= q,
        vx * vx + vy * vy + vz * vz < (q + 1) * (q + 1),
    ensures
        -q <= vx <= q,
        -q <= vy <= q,
        -q <= vz <= q,
{
}

/// Truncating division of `a` by positive `q` leaves a remainder below `q`:
/// magnitude form, `q*|r| <= |a| <= q*|r| + q - 1`.
proof fn lemma_tdiv_remainder(a: int, q: int, m: int, s: int)
    requires
        q >= 1,
        m == if a >= 0 { a } else { -a },
        s == if tdiv(a, q) >= 0 { tdiv(a, q) } else { -tdiv(a, q) },
    ensures
        q * s <= m <= q * s + q - 1,
{
    vstd::arithmetic::div_mod::lemma_fundamental_div_mod(m, q);
    vstd::arithmetic::div_mod::lemma_mod_division_less_than_divisor(m, q);
    assert(s == m / q);
    assert(q * s <= m <= q * s + q - 1);
}

/// One component's share of the squared-length bracket after normalization.
proof fn lemma_component_sq_bracket(m: int, s: int, q: int)
    by (nonlinear_arith)
    requires
        q >= 1,
        0 <= s,
        0 <= m,
        q * s <= m * SCALE <= q * s + q - 1,
    ensures
        q * q * (s * s) <= (m * m) * (SCALE * SCALE),
        q * q * (s * s) >= (m * m) * (SCALE * SCALE) - 2 * (m * SCALE) * (q - 1),
{
}

/// The squared length of a normalized vector is one, up to rounding slack,
/// whenever the input vector is at least Q_MIN fixed-point steps long.
proof fn lemma_normalize_unit(v: V3, q: int, r: V3)
    requires
        q == sqrt_floor(spec_norm_sq(v)),
        spec_norm_sq(v) >= Q_MIN * Q_MIN,
        bounded(v, 1073741824),
        r == spec_normalize(v),
    ensures
        SCALE * SCALE - 6 * SCALE <= spec_norm_sq(r) <= SCALE * SCALE + 32 * SCALE,
{
    let n2 = spec_norm_sq(v);
    lemma_sqrt_floor(n2);
    assert(q >= Q_MIN) by (nonlinear_arith)
        requires
            n2 >= Q_MIN * Q_MIN,
            n2 < (q + 1) * (q + 1),
            q >= 0,
    ;
    let mx = if v.x >= 0 { v.x } else { -v.x };
    let my = if v.y >= 0 { v.y } else { -v.y };
    let mz = if v.z >= 0 { v.z } else { -v.z };
    let sx = if r.x >= 0 { r.x } else { -r.x };
    let sy = if r.y >= 0 { r.y } else { -r.y };
    let sz = if r.z >= 0 { r.z } else { -r.z };
    assert(r.x == tdiv(v.x * SCALE, q) && r.y == tdiv(v.y * SCALE, q) && r.z == tdiv(v.z * SCALE, q));
    assert(mx * SCALE == if v.x * SCALE >= 0 { v.x * SCALE } else { -(v.x * SCALE) }) by (nonlinear_arith)
        requires mx == if v.x >= 0 { v.x } else { -v.x },
    ;
    assert(my * SCALE == if v.y * SCALE >= 0 { v.y * SCALE } else { -(v.y * SCALE) }) by (nonlinear_arith)
        requires my == if v.y >= 0 { v.y } else { -v.y },
    ;
    assert(mz * SCALE == if v.z * SCALE >= 0 { v.z * SCALE } else { -(v.z * SCALE) }) by (nonlinear_arith)
        requires mz == if v.z >= 0 { v.z } else { -v.z },
    ;
    lemma_tdiv_remainder(v.x * SCALE, q, mx * SCALE, sx);
    lemma_tdiv_remainder(v.y * SCALE, q, my * SCALE, sy);
    lemma_tdiv_remainder(v.z * SCALE, q, mz * SCALE, sz);
    lemma_component_sq_bracket(mx, sx, q);
    lemma_component_sq_bracket(my, sy, q);
    lemma_component_sq_bracket(mz, sz, q);
    // Magnitudes square to the same values as the signed components.
    assert(mx * mx == v.x * v.x && my * my == v.y * v.y && mz * mz == v.z * v.z)
        by (nonlinear_arith)
        requires
            mx == if v.x >= 0 { v.x } else { -v.x },
            my == if v.y >= 0 { v.y } else { -v.y },
            mz == if v.z >= 0 { v.z } else { -v.z },
    ;
    assert(sx * sx == r.x * r.x && sy * sy == r.y * r.y && sz * sz == r.z * r.z)
        by (nonlinear_arith)
        requires
            sx == if r.x >= 0 { r.x } else { -r.x },
            sy == if r.y >= 0 { r.y } else { -r.y },
            sz == if r.z >= 0 { r.z } else { -r.z },
    ;
    lemma_component_le_root(v.x, v.y, v.z, q);
    let rn = spec_norm_sq(r);
    assert(rn == r.x * r.x + r.y * r.y + r.z * r.z);
    // Upper bound: q^2 * rn <= n2 * S^2 <= (q^2 + 2q) * S^2, and q >= Q_MIN.
    assert(q * q * rn <= n2 * (SCALE * SCALE)) by (nonlinear_arith)
        requires
            rn == r.x * r.x + r.y * r.y + r.z * r.z,
            n2 == v.x * v.x + v.y * v.y + v.z * v.z,
            q * q * (sx * sx) <= (mx * mx) * (SCALE * SCALE),
            q * q * (sy * sy) <= (my * my) * (SCALE * SCALE),
            q * q * (sz * sz) <= (mz * mz) * (SCALE * SCALE),
            mx * mx == v.x * v.x,
            my * my == v.y * v.y,
            mz * mz == v.z * v.z,
            sx * sx == r.x * r.x,
            sy * sy == r.y * r.y,
            sz * sz == r.z * r.z,
    ;
    assert(n2 <= q * q + 2 * q) by (nonlinear_arith)
        requires
            n2 < (q + 1) * (q + 1),
    ;
    assert(q * q * rn <= (q * q + 2 * q) * (SCALE * SCALE)) by (nonlinear_arith)
        requires
            q * q * rn <= n2 * (SCALE * SCALE),
            n2 <= q * q + 2 * q,
    ;
    assert(rn <= SCALE * SCALE + 32 * SCALE) by (nonlinear_arith)
        requires
            q * q * rn <= (q * q + 2 * q) * (SCALE * SCALE),
            q >= Q_MIN,
    ;
    // Lower bound: q^2 * rn >= n2 * S^2 - 2*S*(q-1)*(mx+my+mz) >= q^2 * (S^2 - 6S).
    assert(q * q * rn >= n2 * (SCALE * SCALE) - 2 * SCALE * (q - 1) * (mx + my + mz))
        by (nonlinear_arith)
        requires
            rn == r.x * r.x + r.y * r.y + r.z * r.z,
            n2 == v.x * v.x + v.y * v.y + v.z * v.z,
            q * q * (sx * sx) >= (mx * mx) * (SCALE * SCALE) - 2 * (mx * SCALE) * (q - 1),
            q * q * (sy * sy) >= (my * my) * (SCALE * SCALE) - 2 * (my * SCALE) * (q - 1),
            q * q * (sz * sz) >= (mz * mz) * (SCALE * SCALE) - 2 * (mz * SCALE) * (q - 1),
            mx * mx == v.x * v.x,
            my * my == v.y * v.y,
            mz * mz == v.z * v.z,
            sx * sx == r.x * r.x,
            sy * sy == r.y * r.y,
            sz * sz == r.z * r.z,
    ;
    assert(q * q * rn >= q * q * (SCALE * SCALE - 6 * SCALE)) by (nonlinear_arith)
        requires
            q * q * rn >= n2 * (SCALE * SCALE) - 2 * SCALE * (q - 1) * (mx + my + mz),
            n2 >= q * q,
            q >= 1,
            0 <= mx <= q,
            0 <= my <= q,
            0 <= mz <= q,
    ;
    assert(rn >= SCALE * SCALE - 6 * SCALE) by (nonlinear_arith)
        requires
            q * q * rn >= q * q * (SCALE * SCALE - 6 * SCALE),
            q >= 1,
    ;
}

} // verus!
