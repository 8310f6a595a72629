//! The integrator: once all neighbor counts of a step are final, each
//! particle independently turns by `alpha + beta * (r + l) * sign(r - l)`,
//! renormalizes its heading into `[-pi, pi)` by `wrap(phi + pi, 2 pi) - pi`,
//! and advances `velocity` along the new heading, wrapping both
//! coordinates back into the domain.

use vstd::prelude::*;
use vstd::arithmetic::mul::lemma_mul_is_commutative;
use crate::soup::{Particle, Particles, Parameters, store_ok_spec};
use crate::torus::{wrap, wrap_spec, UNIT, PI_FP, TWO_PI_FP, MAX_EXTENT};
use crate::trig::{sin_fp, cos_fp, sin_fp_spec, cos_fp_spec, lemma_prod_div_le};

verus! {

/// The sign of `d`: `-1`, `0` or `1`.
pub open spec fn sign_spec(d: int) -> int {
    if d > 0 { 1 } else if d < 0 { -1 } else { 0 }
}

/// Renormalize a heading into `[-PI_FP, PI_FP)`.
pub open spec fn wrap_angle_spec(phi: int) -> int {
    wrap_spec(phi + PI_FP as int, TWO_PI_FP as int) - PI_FP as int
}

/// `v * c / UNIT` rounded toward zero, for `v >= 0`.
pub open spec fn scale_spec(v: int, c: int) -> int {
    if c >= 0 {
        v * c / (UNIT as int)
    } else {
        -(v * (-c) / (UNIT as int))
    }
}

/// The state of one particle after integration under `prm`.
pub open spec fn integrate_one_spec(p: Particle, prm: Parameters) -> Particle {
    let phi1 = wrap_angle_spec(
        p.phi as int + prm.alpha as int
            + prm.beta as int * (p.r as int + p.l as int) * sign_spec(p.r as int - p.l as int));
    let x1 = wrap_spec(p.x as int + scale_spec(prm.velocity as int, cos_fp_spec(phi1)),
        prm.x_max as int);
    let y1 = wrap_spec(p.y as int + scale_spec(prm.velocity as int, sin_fp_spec(phi1)),
        prm.y_max as int);
    Particle {
        x: x1 as i64,
        y: y1 as i64,
        phi: phi1 as i64,
        r: p.r,
        l: p.l,
        n: p.n,
    }
}

/// `velocity * c / UNIT` rounded toward zero: the displacement along one
/// axis, never larger in magnitude than the speed itself.
fn scale_disp(v: i64, c: i64) -> (r: i64)
    requires
        0 <= v <= MAX_EXTENT,
        -UNIT <= c <= UNIT,
    ensures
        r as int == scale_spec(v as int, c as int),
        -v <= r <= v,
{
    if c >= 0 {
        proof {
            lemma_mul_is_commutative(v as int, c as int);
            lemma_prod_div_le(c as int, v as int, UNIT as int);
        }
        (((v as u64) * (c as u64)) / (UNIT as u64)) as i64
    } else {
        proof {
            lemma_mul_is_commutative(v as int, -(c as int));
            lemma_prod_div_le(-(c as int), v as int, UNIT as int);
        }
        -((((v as u64) * ((-c) as u64)) / (UNIT as u64)) as i64)
    }
}

/// Integrate one particle.
fn integrate_one(p: Particle, prm: &Parameters) -> (q: Particle)
    requires
        prm.valid_spec(),
        p.in_domain(*prm),
    ensures
        q == integrate_one_spec(p, *prm),
        q.in_domain(*prm),
{
    let rl_sum: i64 = (p.r as i64) + (p.l as i64);
    let rl_diff: i64 = (p.r as i64) - (p.l as i64);
    let sgn: i64 = if rl_diff > 0 { 1 } else if rl_diff < 0 { -1 } else { 0 };
    proof {
        assert(-27_021_600_000_000_000 <= prm.beta as int * (rl_sum as int)
            <= 27_021_600_000_000_000
            && -27_021_600_000_000_000 <= prm.beta as int * (rl_sum as int) * (sgn as int)
            <= 27_021_600_000_000_000) by (nonlinear_arith)
            requires
                -6_283_186 <= prm.beta as int <= 6_283_186,
                -4_300_000_000 <= rl_sum as int <= 4_300_000_000,
                -1 <= sgn as int <= 1;
    }
    let turn: i64 = prm.beta * rl_sum * sgn;
    let phi1: i64 = wrap(p.phi + prm.alpha + turn + PI_FP, TWO_PI_FP) - PI_FP;
    let dx: i64 = scale_disp(prm.velocity, cos_fp(phi1));
    let dy: i64 = scale_disp(prm.velocity, sin_fp(phi1));
    let x1: i64 = wrap(p.x + dx, prm.x_max);
    let y1: i64 = wrap(p.y + dy, prm.y_max);
    Particle { x: x1, y: y1, phi: phi1, r: p.r, l: p.l, n: p.n }
}

/// Integrate every particle of the store in place. Order-independent:
/// each output particle is a function of its own input state alone.
pub fn integrate(ps: &mut Particles, prm: &Parameters)
    requires
        prm.valid_spec(),
        store_ok_spec(old(ps)@, *prm),
    ensures
        final(ps)@.len() == old(ps)@.len(),
        forall|k: int| 0 <= k < old(ps)@.len()
            ==> final(ps)@[k] == integrate_one_spec(#[trigger] old(ps)@[k], *prm),
        store_ok_spec(final(ps)@, *prm),
{
    let n = ps.len();
    for k in 0..n
        invariant
            n == ps@.len(),
            prm.valid_spec(),
            ps@.len() == old(ps)@.len(),
            forall|i: int| k <= i < n ==> #[trigger] ps@[i] == old(ps)@[i],
            forall|i: int| 0 <= i < k
                ==> ps@[i] == integrate_one_spec(#[trigger] old(ps)@[i], *prm),
            forall|i: int| 0 <= i < n ==> #[trigger] ps@[i].in_domain(*prm),
    {
        let p = ps[k];
        let q = integrate_one(p, prm);
        ps[k] = q;
    }
}

} // verus!
