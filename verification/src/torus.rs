//! Fixed-point scale constants and the two wrapping primitives of the
//! toroidal domain: `wrap` folds a coordinate into `[0, max)`, and `wrap2`
//! gives the shortest signed displacement, in `(-max/2, max/2]`.

use vstd::prelude::*;
use vstd::arithmetic::div_mod::{
    lemma_fundamental_div_mod, lemma_fundamental_div_mod_converse_mod,
};

verus! {

/// One world unit, in fixed-point ticks (positions, radii, velocities).
pub const UNIT: i64 = 1_000_000;
/// Pi in micro-radians.
pub const PI_FP: i64 = 3_141_593;
/// Two pi in micro-radians; kept exactly twice `PI_FP` so that angle
/// normalization lands in `[-PI_FP, PI_FP)`.
pub const TWO_PI_FP: i64 = 6_283_186;
/// Half pi in micro-radians.
pub const HALF_PI_FP: i64 = 1_570_796;
/// A quarter pi in micro-radians.
pub const QUARTER_PI_FP: i64 = 785_398;
/// Largest admissible domain extent, radius, or speed, in fixed-point
/// ticks: keeps every product the kernel forms inside `i64`.
pub const MAX_EXTENT: i64 = 2_000_000_000;

/// The value of `wrap`: the unique representative of `v` modulo `max`
/// that lies in `[0, max)`.
pub open spec fn wrap_spec(v: int, max: int) -> int {
    v % max
}

/// The value of `wrap2`: the unique representative of `v` modulo `max`
/// that lies in `(-max/2, max/2]`.
pub open spec fn wrap2_spec(v: int, max: int) -> int {
    let t = v % max;
    if t > max / 2 {
        t - max
    } else {
        t
    }
}

/// `r == v % max` leaves `r - v` a multiple of `max`.
pub proof fn lemma_mod_difference(v: int, r: int, max: int)
    requires
        0 < max,
        r == v % max,
    ensures
        (r - v) % max == 0,
{
    lemma_fundamental_div_mod(v, max);
    let q = v / max;
    assert(r - v == (-q) * max + 0) by (nonlinear_arith)
        requires v == max * q + r;
    lemma_fundamental_div_mod_converse_mod(r - v, max, -q, 0);
}

/// Fold a coordinate into the domain `[0, max)`, keeping its residue
/// modulo `max`.
pub fn wrap(v: i64, max: i64) -> (r: i64)
    requires
        0 < max,
        i64::MIN < v,
    ensures
        r == wrap_spec(v as int, max as int),
        0 <= r < max,
        (r - v) % (max as int) == 0,
{
    if v >= 0 {
        let r: i64 = ((v as u64) % (max as u64)) as i64;
        proof {
            lemma_mod_difference(v as int, r as int, max as int);
        }
        r
    } else {
        let a: u64 = (-v) as u64;
        let m: u64 = a % (max as u64);
        let r: i64 = if m == 0 { 0 } else { max - (m as i64) };
        proof {
            let vi = v as int;
            let mi = max as int;
            let ai = a as int;
            let qa = ai / mi;
            lemma_fundamental_div_mod(ai, mi);
            if m == 0 {
                assert(vi == (-qa) * mi + 0) by (nonlinear_arith)
                    requires ai == mi * qa + 0, vi == -ai;
                lemma_fundamental_div_mod_converse_mod(vi, mi, -qa, 0);
            } else {
                assert(vi == (-qa - 1) * mi + (mi - m as int)) by (nonlinear_arith)
                    requires ai == mi * qa + (m as int), vi == -ai;
                lemma_fundamental_div_mod_converse_mod(vi, mi, -qa - 1, mi - m as int);
            }
            lemma_mod_difference(vi, r as int, mi);
        }
        r
    }
}

/// Shortest signed displacement from `0` to `v` on a circle of length
/// `max`: the representative of `v` modulo `max` in `(-max/2, max/2]`.
pub fn wrap2(v: i64, max: i64) -> (r: i64)
    requires
        0 < max,
        i64::MIN < v,
    ensures
        r == wrap2_spec(v as int, max as int),
        -(max as int) < 2 * r,
        2 * r <= max,
{
    let t: i64 = wrap(v, max);
    let h: i64 = ((max as u64) / 2) as i64;
    if t > h {
        t - max
    } else {
        t
    }
}

} // verus!
