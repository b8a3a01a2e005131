//! 3D points and directions in fixed-point coordinates.

use vstd::prelude::*;
use crate::fixed::{
    abs_i, div_floor, fx_div, fx_mul, is_sqrt, isqrt64, lemma_fx_mul_neg_one,
    lemma_is_sqrt_unique, lemma_sqrt_floor_is_sqrt, sqrt_floor, ONE,
};
use vstd::arithmetic::div_mod::{
    lemma_div_is_ordered, lemma_div_of0, lemma_div_pos_is_pos, lemma_fundamental_div_mod,
    lemma_mod_division_less_than_divisor,
};

verus! {

/// A 3D point or direction.  Each component is a Q47.16 raw scalar.
#[derive(Copy, Clone, Debug)]
pub struct Vector3 {
    pub x: i64,
    pub y: i64,
    pub z: i64,
}

/// The sum of the squared raw components, i.e. the squared magnitude
/// scaled by `ONE * ONE`.
pub open spec fn sum_sq(v: Vector3) -> int {
    v.x * v.x + v.y * v.y + v.z * v.z
}

/// The fixed-point dot product: the exact sum of raw products, scaled
/// back down once, rounded toward negative infinity.
pub open spec fn dot_fx(a: Vector3, b: Vector3) -> int {
    (a.x * b.x + a.y * b.y + a.z * b.z) / (ONE as int)
}

/// First component of the fixed-point cross product.
pub open spec fn cross_x_fx(a: Vector3, b: Vector3) -> int {
    (a.y * b.z - a.z * b.y) / (ONE as int)
}

/// Second component of the fixed-point cross product.
pub open spec fn cross_y_fx(a: Vector3, b: Vector3) -> int {
    (a.z * b.x - a.x * b.z) / (ONE as int)
}

/// Third component of the fixed-point cross product.
pub open spec fn cross_z_fx(a: Vector3, b: Vector3) -> int {
    (a.x * b.y - a.y * b.x) / (ONE as int)
}

/// The products a dot product of `a` and `b` forms all fit in `i64`.
pub open spec fn dot_fits(a: Vector3, b: Vector3) -> bool {
    abs_i(a.x * b.x) + abs_i(a.y * b.y) + abs_i(a.z * b.z) <= i64::MAX
}

/// The products a cross product of `a` and `b` forms all fit in `i64`.
pub open spec fn cross_fits(a: Vector3, b: Vector3) -> bool {
    &&& abs_i(a.y * b.z) + abs_i(a.z * b.y) <= i64::MAX
    &&& abs_i(a.z * b.x) + abs_i(a.x * b.z) <= i64::MAX
    &&& abs_i(a.x * b.y) + abs_i(a.y * b.x) <= i64::MAX
}

impl Vector3 {
    /// A vector from its three raw components.
    pub fn new(x: i64, y: i64, z: i64) -> (v: Self)
        ensures
            v == (Vector3 { x, y, z }),
    {
        Self { x, y, z }
    }

    /// Adds the given deltas to the components, in place and exactly.
    pub fn translate(&mut self, x: i64, y: i64, z: i64)
        requires
            i64::MIN <= old(self).x + x <= i64::MAX,
            i64::MIN <= old(self).y + y <= i64::MAX,
            i64::MIN <= old(self).z + z <= i64::MAX,
        ensures
            final(self).x == old(self).x + x,
            final(self).y == old(self).y + y,
            final(self).z == old(self).z + z,
    {
        self.x = self.x + x;
        self.y = self.y + y;
        self.z = self.z + z;
    }

    /// Scales every component by the scalar `k`, in place.
    pub fn scale(&mut self, k: i64)
        requires
            abs_i(old(self).x * k) <= i64::MAX,
            abs_i(old(self).y * k) <= i64::MAX,
            abs_i(old(self).z * k) <= i64::MAX,
        ensures
            final(self).x == fx_mul(old(self).x as int, k as int),
            final(self).y == fx_mul(old(self).y as int, k as int),
            final(self).z == fx_mul(old(self).z as int, k as int),
    {
        self.x = div_floor(self.x * k, ONE);
        self.y = div_floor(self.y * k, ONE);
        self.z = div_floor(self.z * k, ONE);
    }

    /// Scales the components by three independent scalars, in place.
    pub fn non_uniform_scale(&mut self, x: i64, y: i64, z: i64)
        requires
            abs_i(old(self).x * x) <= i64::MAX,
            abs_i(old(self).y * y) <= i64::MAX,
            abs_i(old(self).z * z) <= i64::MAX,
        ensures
            final(self).x == fx_mul(old(self).x as int, x as int),
            final(self).y == fx_mul(old(self).y as int, y as int),
            final(self).z == fx_mul(old(self).z as int, z as int),
    {
        self.x = div_floor(self.x * x, ONE);
        self.y = div_floor(self.y * y, ONE);
        self.z = div_floor(self.z * z, ONE);
    }

    /// Scales the vector to magnitude one, in place: each component is
    /// divided by the magnitude.  A zero vector is left unchanged, so the
    /// division is never by zero.
    pub fn normalize(&mut self)
        requires
            abs_i(old(self).x * old(self).x) + abs_i(old(self).y * old(self).y) + abs_i(
                old(self).z * old(self).z,
            ) <= i64::MAX,
            abs_i(old(self).x as int) * (ONE as int) <= i64::MAX,
            abs_i(old(self).y as int) * (ONE as int) <= i64::MAX,
            abs_i(old(self).z as int) * (ONE as int) <= i64::MAX,
        ensures
            ({
                let m = sqrt_floor(sum_sq(*old(self)));
                if m == 0 {
                    *final(self) == *old(self)
                } else {
                    &&& final(self).x == fx_div(old(self).x as int, m)
                    &&& final(self).y == fx_div(old(self).y as int, m)
                    &&& final(self).z == fx_div(old(self).z as int, m)
                }
            }),
    {
        let mag: i64 = calculate_magnitude(self);
        if mag != 0 {
            self.x = div_floor(self.x * ONE, mag);
            self.y = div_floor(self.y * ONE, mag);
            self.z = div_floor(self.z * ONE, mag);
        }
    }

    /// Flips the sign of every component, in place.
    pub fn negate(&mut self)
        requires
            abs_i(old(self).x as int) * (ONE as int) <= i64::MAX,
            abs_i(old(self).y as int) * (ONE as int) <= i64::MAX,
            abs_i(old(self).z as int) * (ONE as int) <= i64::MAX,
        ensures
            final(self).x == -old(self).x,
            final(self).y == -old(self).y,
            final(self).z == -old(self).z,
    {
        proof {
            let sx: int = self.x as int;
            let sy: int = self.y as int;
            let sz: int = self.z as int;
            assert(abs_i(sx * (-ONE) as int) <= i64::MAX) by (nonlinear_arith)
                requires abs_i(sx) * (ONE as int) <= i64::MAX;
            assert(abs_i(sy * (-ONE) as int) <= i64::MAX) by (nonlinear_arith)
                requires abs_i(sy) * (ONE as int) <= i64::MAX;
            assert(abs_i(sz * (-ONE) as int) <= i64::MAX) by (nonlinear_arith)
                requires abs_i(sz) * (ONE as int) <= i64::MAX;
        }
        self.scale(-ONE);
        proof {
            lemma_fx_mul_neg_one(old(self).x as int);
            lemma_fx_mul_neg_one(old(self).y as int);
            lemma_fx_mul_neg_one(old(self).z as int);
        }
    }
}

/// The magnitude of `v`: the integer square root of the sum of squared
/// raw components, which is the raw magnitude rounded down.
pub fn calculate_magnitude(v: &Vector3) -> (m: i64)
    requires
        abs_i(v.x * v.x) + abs_i(v.y * v.y) + abs_i(v.z * v.z) <= i64::MAX,
    ensures
        m == sqrt_floor(sum_sq(*v)),
        is_sqrt(sum_sq(*v), m as int),
{
    proof {
        assert(v.x * v.x >= 0) by (nonlinear_arith);
        assert(v.y * v.y >= 0) by (nonlinear_arith);
        assert(v.z * v.z >= 0) by (nonlinear_arith);
    }
    let s: i64 = v.x * v.x + v.y * v.y + v.z * v.z;
    let r: u64 = isqrt64(s as u64);
    proof {
        assert((r as int) * (r as int) <= s as int);
        assert(r as int <= 3037000499) by (nonlinear_arith)
            requires (r as int) * (r as int) <= s as int <= i64::MAX && r as int >= 0;
        lemma_sqrt_floor_is_sqrt(s as int);
        lemma_is_sqrt_unique(s as int, r as int, sqrt_floor(s as int));
    }
    r as i64
}

/// The componentwise sum of two vectors, exactly.
pub fn add(v1: &Vector3, v2: &Vector3) -> (r: Vector3)
    requires
        i64::MIN <= v1.x + v2.x <= i64::MAX,
        i64::MIN <= v1.y + v2.y <= i64::MAX,
        i64::MIN <= v1.z + v2.z <= i64::MAX,
    ensures
        r.x == v1.x + v2.x,
        r.y == v1.y + v2.y,
        r.z == v1.z + v2.z,
{
    Vector3 { x: v1.x + v2.x, y: v1.y + v2.y, z: v1.z + v2.z }
}

/// The componentwise difference of two vectors, exactly.
pub fn subtract(v1: &Vector3, v2: &Vector3) -> (r: Vector3)
    requires
        i64::MIN <= v1.x - v2.x <= i64::MAX,
        i64::MIN <= v1.y - v2.y <= i64::MAX,
        i64::MIN <= v1.z - v2.z <= i64::MAX,
    ensures
        r.x == v1.x - v2.x,
        r.y == v1.y - v2.y,
        r.z == v1.z - v2.z,
{
    Vector3 { x: v1.x - v2.x, y: v1.y - v2.y, z: v1.z - v2.z }
}

/// The fixed-point dot product of two vectors.
pub fn dot_product(v1: &Vector3, v2: &Vector3) -> (r: i64)
    requires
        dot_fits(*v1, *v2),
    ensures
        r == dot_fx(*v1, *v2),
{
    let s: i64 = v1.x * v2.x + v1.y * v2.y + v1.z * v2.z;
    div_floor(s, ONE)
}

/// The fixed-point cross product of two vectors, by the right-hand rule.
pub fn cross_product(v1: &Vector3, v2: &Vector3) -> (r: Vector3)
    requires
        cross_fits(*v1, *v2),
    ensures
        r.x == cross_x_fx(*v1, *v2),
        r.y == cross_y_fx(*v1, *v2),
        r.z == cross_z_fx(*v1, *v2),
{
    Vector3 {
        x: div_floor(v1.y * v2.z - v1.z * v2.y, ONE),
        y: div_floor(v1.z * v2.x - v1.x * v2.z, ONE),
        z: div_floor(v1.x * v2.y - v1.y * v2.x, ONE),
    }
}


/// The cross product of a vector with itself is the zero vector, exactly.
pub proof fn lemma_cross_self_is_zero(v: Vector3)
    ensures
        cross_x_fx(v, v) == 0,
        cross_y_fx(v, v) == 0,
        cross_z_fx(v, v) == 0,
{
    assert(v.y * v.z - v.z * v.y == 0) by (nonlinear_arith);
    assert(v.z * v.x - v.x * v.z == 0) by (nonlinear_arith);
    assert(v.x * v.y - v.y * v.x == 0) by (nonlinear_arith);
    lemma_div_of0(ONE as int);
}

/// The cross product of `a` and `b` is orthogonal to `a` up to rounding:
/// the fixed-point dot product of `a` with it is within
/// `3 * bound / ONE + 1` raw units of zero, where `bound` caps the raw
/// magnitude of the components of `a`.  Without the one rounding step in
/// each cross component the dot product would be exactly zero.
pub proof fn lemma_cross_is_orthogonal(a: Vector3, b: Vector3, c: Vector3, bound: int)
    requires
        0 <= bound,
        abs_i(a.x as int) <= bound,
        abs_i(a.y as int) <= bound,
        abs_i(a.z as int) <= bound,
        c.x == cross_x_fx(a, b),
        c.y == cross_y_fx(a, b),
        c.z == cross_z_fx(a, b),
    ensures
        abs_i(dot_fx(a, c)) <= 3 * bound / (ONE as int) + 1,
{
    let one: int = ONE as int;
    assert(one == 65536);
    let ax: int = a.x as int;
    let ay: int = a.y as int;
    let az: int = a.z as int;
    let nx: int = ay * (b.z as int) - az * (b.y as int);
    let ny: int = az * (b.x as int) - ax * (b.z as int);
    let nz: int = ax * (b.y as int) - ay * (b.x as int);
    assert(ax * nx + ay * ny + az * nz == 0) by (nonlinear_arith)
        requires
            nx == ay * (b.z as int) - az * (b.y as int),
            ny == az * (b.x as int) - ax * (b.z as int),
            nz == ax * (b.y as int) - ay * (b.x as int);
    let cx: int = c.x as int;
    let cy: int = c.y as int;
    let cz: int = c.z as int;
    let rx: int = nx % one;
    let ry: int = ny % one;
    let rz: int = nz % one;
    lemma_fundamental_div_mod(nx, one);
    lemma_fundamental_div_mod(ny, one);
    lemma_fundamental_div_mod(nz, one);
    lemma_mod_division_less_than_divisor(nx, one);
    lemma_mod_division_less_than_divisor(ny, one);
    lemma_mod_division_less_than_divisor(nz, one);
    assert(cx == nx / one && cy == ny / one && cz == nz / one);
    assert(ax * nx == one * (ax * cx) + ax * rx) by (nonlinear_arith)
        requires nx == one * cx + rx;
    assert(ay * ny == one * (ay * cy) + ay * ry) by (nonlinear_arith)
        requires ny == one * cy + ry;
    assert(az * nz == one * (az * cz) + az * rz) by (nonlinear_arith)
        requires nz == one * cz + rz;
    let s: int = ax * cx + ay * cy + az * cz;
    let t: int = ax * rx + ay * ry + az * rz;
    assert(one * s == -t);
    assert(abs_i(ax * rx) <= bound * one) by (nonlinear_arith)
        requires abs_i(ax) <= bound && 0 <= rx < one;
    assert(abs_i(ay * ry) <= bound * one) by (nonlinear_arith)
        requires abs_i(ay) <= bound && 0 <= ry < one;
    assert(abs_i(az * rz) <= bound * one) by (nonlinear_arith)
        requires abs_i(az) <= bound && 0 <= rz < one;
    assert(abs_i(t) <= 3 * bound * one);
    assert(abs_i(s) <= 3 * bound);
    assert(dot_fx(a, c) == s / one);
    let u: int = 3 * bound;
    if s >= 0 {
        lemma_div_pos_is_pos(s, one);
        lemma_div_is_ordered(s, u, one);
    } else {
        lemma_div_is_ordered(-u, s, one);
        lemma_fundamental_div_mod(u, one);
        lemma_fundamental_div_mod(-u, one);
        lemma_mod_division_less_than_divisor(u, one);
        lemma_mod_division_less_than_divisor(-u, one);
        lemma_div_pos_is_pos(u, one);
        assert((-u) / one >= -(u / one) - 1);
        lemma_div_is_ordered(s, 0, one);
        lemma_div_of0(one);
    }
}

} // verus!
