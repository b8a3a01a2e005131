//! Q47.16 fixed-point scalars.
//!
//! A scalar is an `i64` raw value denoting the real number `raw / ONE`.
//! Sums and differences of scalars are exact.  Products and quotients are
//! rounded toward negative infinity (floor), and the spec functions here
//! state that rounding exactly, so contracts elsewhere in the crate can be
//! precise about every arithmetic step.

use vstd::prelude::*;
use vstd::arithmetic::div_mod::{
    lemma_fundamental_div_mod, lemma_fundamental_div_mod_converse_div,
};

verus! {

/// The raw representation of the scalar one: 2^16.
pub const ONE: i64 = 65536;

/// The fixed-point product of raws `a` and `b`: the exact integer product
/// scaled back down, rounded toward negative infinity.
pub open spec fn fx_mul(a: int, b: int) -> int {
    (a * b) / (ONE as int)
}

/// The fixed-point quotient of raws `a` and `b` (for `b > 0`): the exact
/// ratio scaled up to raw form, rounded toward negative infinity.
pub open spec fn fx_div(a: int, b: int) -> int {
    (a * ONE) / b
}

/// Magnitude of `n`.
pub open spec fn abs_i(n: int) -> int {
    if n < 0 {
        -n
    } else {
        n
    }
}

/// `r` is the integer square root of `s`, rounded down.
pub open spec fn is_sqrt(s: int, r: int) -> bool {
    0 <= r && r * r <= s < (r + 1) * (r + 1)
}

/// Floor division of `a` by a positive divisor `d`.
pub fn div_floor(a: i64, d: i64) -> (q: i64)
    requires
        d > 0,
        a > i64::MIN,
    ensures
        q == a as int / d as int,
{
    if a >= 0 {
        let qu: u64 = (a as u64) / (d as u64);
        qu as i64
    } else {
        let n: u64 = (-a) as u64;
        let qu: u64 = n / (d as u64);
        let ru: u64 = n % (d as u64);
        proof {
            lemma_fundamental_div_mod(n as int, d as int);
            if ru == 0 {
                assert(a as int == (-(qu as int)) * (d as int) + 0) by (nonlinear_arith)
                    requires n as int == d as int * (qu as int) && a as int == -(n as int);
                lemma_fundamental_div_mod_converse_div(a as int, d as int, -(qu as int), 0);
            } else {
                assert(a as int == (-(qu as int) - 1) * (d as int) + (d as int - ru as int))
                    by (nonlinear_arith)
                    requires
                        n as int == d as int * (qu as int) + ru as int,
                        a as int == -(n as int);
                lemma_fundamental_div_mod_converse_div(
                    a as int,
                    d as int,
                    -(qu as int) - 1,
                    d as int - ru as int,
                );
            }
        }
        if ru == 0 {
            -(qu as i64)
        } else {
            -(qu as i64) - 1
        }
    }
}

/// Division of `n` by `d`, rounded toward zero, as the rasterizer's edge
/// interpolation uses it.  Symmetric in `n` and in `d`: negating either
/// negates the result, which the scanline symmetry law rests on.
pub open spec fn div_trunc(n: int, d: int) -> int {
    let q = abs_i(n) / abs_i(d);
    if (n < 0) != (d < 0) {
        -q
    } else {
        q
    }
}

/// Truncating division, matching `div_trunc`.
pub fn div_trunc_i64(n: i64, d: i64) -> (q: i64)
    requires
        d != 0,
        n > i64::MIN,
        d > i64::MIN,
    ensures
        q == div_trunc(n as int, d as int),
{
    let nu: u64 = if n >= 0 {
        n as u64
    } else {
        (-n) as u64
    };
    let du: u64 = if d >= 0 {
        d as u64
    } else {
        (-d) as u64
    };
    let qu: u64 = nu / du;
    if (n < 0) != (d < 0) {
        -(qu as i64)
    } else {
        qu as i64
    }
}

/// Integer square root, rounded down.
pub fn isqrt64(n: u64) -> (r: u64)
    ensures
        is_sqrt(n as int, r as int),
{
    let mut lo: u64 = 0;
    let mut hi: u64 = 4294967296;
    while lo + 1 < hi
        invariant
            0 <= lo < hi <= 4294967296,
            lo * lo <= n,
            n < hi * hi,
        decreases hi - lo,
    {
        let mid: u64 = lo + (hi - lo) / 2;
        proof {
            assert((mid as int) * (mid as int) <= 4294967295 * 4294967295) by (nonlinear_arith)
                requires 0 <= mid as int <= 4294967295;
        }
        if mid * mid <= n {
            lo = mid;
        } else {
            hi = mid;
        }
    }
    lo
}

/// Scaling a raw by the raw one is exact: `fx_mul(a, ONE) == a`.
pub proof fn lemma_fx_mul_one(a: int)
    ensures
        fx_mul(a, ONE as int) == a,
{
    lemma_fundamental_div_mod_converse_div(a * (ONE as int), ONE as int, a, 0);
}

/// Scaling a raw by the raw negative one negates it exactly.
pub proof fn lemma_fx_mul_neg_one(a: int)
    ensures
        fx_mul(a, -(ONE as int)) == -a,
{
    assert(a * (-(ONE as int)) == (-a) * (ONE as int)) by (nonlinear_arith);
    lemma_fundamental_div_mod_converse_div((-a) * (ONE as int), ONE as int, -a, 0);
}

/// The integer square root of `s`, rounded down (zero for negative `s`).
pub open spec fn sqrt_floor(s: int) -> int
    decreases s,
{
    if s <= 0 {
        0
    } else {
        let p = sqrt_floor(s - 1);
        if (p + 1) * (p + 1) <= s {
            p + 1
        } else {
            p
        }
    }
}

/// `sqrt_floor` is the integer square root it claims to be.
pub proof fn lemma_sqrt_floor_is_sqrt(s: int)
    requires
        0 <= s,
    ensures
        is_sqrt(s, sqrt_floor(s)),
    decreases s,
{
    if s > 0 {
        lemma_sqrt_floor_is_sqrt(s - 1);
        let p = sqrt_floor(s - 1);
        if (p + 1) * (p + 1) <= s {
            assert((p + 1) * (p + 1) + 1 <= (p + 2) * (p + 2)) by (nonlinear_arith)
                requires 0 <= p;
        }
    }
}

/// A number has only one integer square root rounded down.
pub proof fn lemma_is_sqrt_unique(s: int, r1: int, r2: int)
    requires
        is_sqrt(s, r1),
        is_sqrt(s, r2),
    ensures
        r1 == r2,
{
    if r1 < r2 {
        assert((r1 + 1) * (r1 + 1) <= r2 * r2) by (nonlinear_arith)
            requires 0 <= r1 && 0 <= r2 && r1 + 1 <= r2;
    }
    if r2 < r1 {
        assert((r2 + 1) * (r2 + 1) <= r1 * r1) by (nonlinear_arith)
            requires 0 <= r1 && 0 <= r2 && r2 + 1 <= r1;
    }
}

/// The magnitude of a product is at most the product of the bounds.
pub proof fn lemma_abs_prod_le(a: int, b: int, ab: int, bb: int)
    requires
        abs_i(a) <= ab,
        abs_i(b) <= bb,
    ensures
        abs_i(a * b) <= ab * bb,
{
    assert(abs_i(a * b) <= ab * bb) by (nonlinear_arith)
        requires abs_i(a) <= ab && abs_i(b) <= bb;
}

/// Summing two raw products bounded by `ONE * b` and scaling back down
/// keeps the result within `2 * b`.
pub proof fn lemma_fx_pair_bound(p: int, q: int, b: int)
    requires
        0 <= b,
        abs_i(p) <= (ONE as int) * b,
        abs_i(q) <= (ONE as int) * b,
    ensures
        abs_i((p + q) / (ONE as int)) <= 2 * b,
{
    let one: int = ONE as int;
    let w: int = p + q;
    assert(one * (2 * b) == 2 * (one * b));
    vstd::arithmetic::div_mod::lemma_div_is_ordered(w, one * (2 * b), one);
    vstd::arithmetic::div_mod::lemma_div_is_ordered(one * (-2 * b), w, one);
    vstd::arithmetic::div_mod::lemma_div_multiples_vanish(2 * b, one);
    vstd::arithmetic::div_mod::lemma_div_multiples_vanish(-2 * b, one);
}


/// A truncating interpolation step stays between zero and the full
/// offset: for `0 <= t <= d`, `div_trunc(t * m, d)` lies between `0` and
/// `m` inclusive.
pub proof fn lemma_div_trunc_interp_range(t: int, m: int, d: int)
    requires
        0 < d,
        0 <= t <= d,
    ensures
        m >= 0 ==> 0 <= div_trunc(t * m, d) <= m,
        m < 0 ==> m <= div_trunc(t * m, d) <= 0,
{
    let p: int = t * m;
    assert(abs_i(p) == t * abs_i(m)) by (nonlinear_arith)
        requires p == t * m && 0 <= t;
    assert(t * abs_i(m) <= d * abs_i(m)) by (nonlinear_arith)
        requires 0 <= t <= d && 0 <= abs_i(m);
    let q0: int = abs_i(p) / d;
    vstd::arithmetic::div_mod::lemma_div_is_ordered(abs_i(p), d * abs_i(m), d);
    vstd::arithmetic::div_mod::lemma_div_multiples_vanish(abs_i(m), d);
    vstd::arithmetic::div_mod::lemma_div_pos_is_pos(abs_i(p), d);
    assert(0 <= q0 <= abs_i(m));
    if m >= 0 {
        assert(p >= 0) by (nonlinear_arith)
            requires p == t * m && 0 <= t && 0 <= m;
    } else {
        assert(p <= 0) by (nonlinear_arith)
            requires p == t * m && 0 <= t && m < 0;
    }
}


/// Negating the numerator of a truncating division negates the result.
pub proof fn lemma_div_trunc_neg_num(n: int, d: int)
    requires
        d != 0,
    ensures
        div_trunc(-n, d) == -div_trunc(n, d),
{
    if n == 0 {
        vstd::arithmetic::div_mod::lemma_div_pos_is_pos(0, abs_i(d));
        vstd::arithmetic::div_mod::lemma_div_is_ordered(0, 0, abs_i(d));
        assert(abs_i(0int) / abs_i(d) == 0) by {
            vstd::arithmetic::div_mod::lemma_fundamental_div_mod_converse_div(0, abs_i(d), 0, 0);
        }
    }
}

/// Negating the divisor of a truncating division negates the result.
pub proof fn lemma_div_trunc_neg_den(n: int, d: int)
    requires
        d != 0,
    ensures
        div_trunc(n, -d) == -div_trunc(n, d),
{
    if n == 0 {
        assert(abs_i(0int) / abs_i(d) == 0) by {
            vstd::arithmetic::div_mod::lemma_fundamental_div_mod_converse_div(0, abs_i(d), 0, 0);
        }
    }
}

} // verus!
