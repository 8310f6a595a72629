//! Fixed-point circular functions on micro-radian angles: a rational sine
//! approximation on `[0, pi]`, cosine by phase shift, and a quadrant-wise
//! arctangent. Each executable function computes exactly the value of its
//! spec mirror, so every use of them downstream is deterministic.

use vstd::prelude::*;
use vstd::arithmetic::div_mod::{
    lemma_fundamental_div_mod, lemma_div_is_ordered, lemma_div_pos_is_pos,
    lemma_div_multiples_vanish, lemma_mod_bound,
};
use vstd::arithmetic::mul::{
    lemma_mul_inequality, lemma_mul_nonnegative, lemma_mul_is_commutative,
};
use crate::torus::{UNIT, PI_FP, TWO_PI_FP, HALF_PI_FP, QUARTER_PI_FP, MAX_EXTENT};

verus! {

/// Pi in milli-radians; sine inputs are coarsened to this grid.
pub const PI_MILLI: i64 = 3_141;
/// The constant 0.273 in micro-units, used by the arctangent approximation.
pub const ATAN_K: i64 = 273_000;

/// `0 <= x` and `x <= b` bound the quotient `x * y / d` by `y` when `d >= b`.
pub(crate) proof fn lemma_prod_div_le(x: int, y: int, d: int)
    requires
        0 <= x <= d,
        0 <= y,
        0 < d,
    ensures
        0 <= x * y / d <= y,
{
    lemma_mul_nonnegative(x, y);
    lemma_div_pos_is_pos(x * y, d);
    lemma_mul_inequality(x, d, y);
    lemma_div_is_ordered(x * y, d * y, d);
    lemma_div_multiples_vanish(y, d);
}

/// `a < b * c` bounds the quotient `a / b` strictly by `c`.
pub proof fn lemma_div_strict_bound_pub(a: int, b: int, c: int)
    requires
        0 <= a,
        0 < b,
        a < b * c,
    ensures
        a / b < c,
{
    lemma_fundamental_div_mod(a, b);
    lemma_mod_bound(a, b);
    lemma_div_pos_is_pos(a, b);
    if a / b >= c {
        lemma_mul_inequality(c, a / b, b);
        lemma_mul_is_commutative(b, a / b);
        lemma_mul_is_commutative(b, c);
        assert(false);
    }
}

/// Rational sine approximation on `[0, pi]`, with input in milli-radians
/// and output in micro-units: `16 u (pi - u) / (5 pi^2 - 4 u (pi - u))`.
pub open spec fn bhaskara_spec(u: int) -> int {
    let pm = PI_MILLI as int;
    16 * (u * (pm - u)) * (UNIT as int) / (5 * (pm * pm) - 4 * (u * (pm - u)))
}

/// Sine of an angle already normalized into `[-PI_FP, PI_FP]`.
pub open spec fn sin_norm_spec(x: int) -> int {
    if x >= 0 {
        bhaskara_spec(x / 1000)
    } else {
        -bhaskara_spec((-x) / 1000)
    }
}

/// Sine in micro-units of a micro-radian angle in `[-TWO_PI_FP, TWO_PI_FP]`.
pub open spec fn sin_fp_spec(x: int) -> int {
    if x > PI_FP as int {
        sin_norm_spec(x - TWO_PI_FP as int)
    } else if x < -(PI_FP as int) {
        sin_norm_spec(x + TWO_PI_FP as int)
    } else {
        sin_norm_spec(x)
    }
}

/// Cosine in micro-units of a micro-radian angle in `[-PI_FP, PI_FP]`.
pub open spec fn cos_fp_spec(x: int) -> int {
    sin_fp_spec(HALF_PI_FP as int - x)
}

fn bhaskara(u: i64) -> (r: i64)
    requires
        0 <= u <= PI_MILLI,
    ensures
        r == bhaskara_spec(u as int),
        0 <= r < UNIT,
{
    let d: i64 = PI_MILLI - u;
    proof {
        assert(0 <= u as int * (d as int)
            && 4 * (u as int * (d as int)) <= PI_MILLI as int * (PI_MILLI as int) - 1)
            by (nonlinear_arith)
            requires
                0 <= u as int <= PI_MILLI as int,
                d as int == PI_MILLI as int - u as int;
    }
    let a: i64 = u * d;
    let num: i64 = 16 * a * UNIT;
    let den: i64 = 5 * (PI_MILLI * PI_MILLI) - 4 * a;
    proof {
        assert(num < den * UNIT) by (nonlinear_arith)
            requires
                num == 16 * (a as int) * (UNIT as int),
                den == 5 * (PI_MILLI as int * PI_MILLI as int) - 4 * a,
                4 * a <= PI_MILLI as int * PI_MILLI as int - 1,
                0 <= a;
        lemma_div_strict_bound_pub(num as int, den as int, UNIT as int);
        lemma_div_pos_is_pos(num as int, den as int);
    }
    ((num as u64) / (den as u64)) as i64
}

/// Sine in micro-units; the result equals `sin_fp_spec` exactly.
pub fn sin_fp(x: i64) -> (r: i64)
    requires
        -TWO_PI_FP <= x <= TWO_PI_FP,
    ensures
        r == sin_fp_spec(x as int),
        -UNIT < r < UNIT,
{
    let xn: i64 = if x > PI_FP {
        x - TWO_PI_FP
    } else if x < -PI_FP {
        x + TWO_PI_FP
    } else {
        x
    };
    if xn >= 0 {
        proof {
            lemma_div_is_ordered(xn as int, PI_FP as int, 1000);
        }
        bhaskara(((xn as u64) / 1000) as i64)
    } else {
        proof {
            lemma_div_is_ordered(-xn as int, PI_FP as int, 1000);
        }
        let r: i64 = bhaskara((((-xn) as u64) / 1000) as i64);
        -r
    }
}

/// Cosine in micro-units; the result equals `cos_fp_spec` exactly.
pub fn cos_fp(x: i64) -> (r: i64)
    requires
        -PI_FP <= x <= PI_FP,
    ensures
        r == cos_fp_spec(x as int),
        -UNIT < r < UNIT,
{
    sin_fp(HALF_PI_FP - x)
}

/// Arctangent approximation of `num / den` in micro-radians for
/// `0 <= num <= den`: `(pi/4) t + 0.273 t (1 - t)` at `t = num / den`.
pub open spec fn atan_frac_spec(num: int, den: int) -> int {
    let un = UNIT as int;
    let z = num * un / den;
    z * (QUARTER_PI_FP as int) / un + z * (un - z) / un * (ATAN_K as int) / un
}

fn atan_frac(num: i64, den: i64) -> (r: i64)
    requires
        0 <= num <= den,
        1 <= den <= MAX_EXTENT,
    ensures
        r == atan_frac_spec(num as int, den as int),
        0 <= r <= QUARTER_PI_FP + ATAN_K,
{
    proof {
        lemma_prod_div_le(num as int, UNIT as int, den as int);
    }
    let z: i64 = (((num as u64) * (UNIT as u64)) / (den as u64)) as i64;
    proof {
        lemma_prod_div_le(z as int, QUARTER_PI_FP as int, UNIT as int);
        lemma_prod_div_le(z as int, UNIT as int - z as int, UNIT as int);
    }
    let a: i64 = ((z as u64) * (QUARTER_PI_FP as u64) / (UNIT as u64)) as i64;
    let w: i64 = ((z as u64) * ((UNIT - z) as u64) / (UNIT as u64)) as i64;
    proof {
        lemma_prod_div_le(w as int, ATAN_K as int, UNIT as int);
    }
    let b: i64 = ((w as u64) * (ATAN_K as u64) / (UNIT as u64)) as i64;
    a + b
}

/// The bearing angle of the displacement `(dx, dy)` in micro-radians: the
/// quadrant-wise arctangent, with both axes degenerate mapped to `0`.
pub open spec fn atan2_spec(dy: int, dx: int) -> int {
    if dx == 0 && dy == 0 {
        0
    } else {
        let ax = if dx < 0 { -dx } else { dx };
        let ay = if dy < 0 { -dy } else { dy };
        let base = if ax >= ay {
            atan_frac_spec(ay, ax)
        } else {
            HALF_PI_FP as int - atan_frac_spec(ax, ay)
        };
        if dx >= 0 {
            if dy >= 0 { base } else { -base }
        } else {
            if dy >= 0 { PI_FP as int - base } else { base - PI_FP as int }
        }
    }
}

/// Bearing angle of `(dx, dy)`; the result equals `atan2_spec` exactly.
pub fn atan2_fp(dy: i64, dx: i64) -> (r: i64)
    requires
        -MAX_EXTENT <= dx <= MAX_EXTENT,
        -MAX_EXTENT <= dy <= MAX_EXTENT,
    ensures
        r == atan2_spec(dy as int, dx as int),
        -PI_FP <= r <= PI_FP,
{
    if dx == 0 && dy == 0 {
        return 0;
    }
    let ax: i64 = if dx < 0 { -dx } else { dx };
    let ay: i64 = if dy < 0 { -dy } else { dy };
    let base: i64 = if ax >= ay {
        atan_frac(ay, ax)
    } else {
        HALF_PI_FP - atan_frac(ax, ay)
    };
    if dx >= 0 {
        if dy >= 0 { base } else { -base }
    } else {
        if dy >= 0 { PI_FP - base } else { base - PI_FP }
    }
}

} // verus!
