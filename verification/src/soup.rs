//! The particle and parameter types of the swarm, their well-formedness
//! conditions, and the display classification of a particle by its
//! neighbor total.
//!
//! Positions, radii and speeds are in fixed-point ticks of `UNIT` per
//! world unit; angles are in micro-radians.

use vstd::prelude::*;
use crate::torus::{UNIT, PI_FP, TWO_PI_FP, MAX_EXTENT};

verus! {

/// Largest admissible particle count; keeps the neighbor counters of a
/// particle inside `i32`.
pub const MAX_PARTICLES: usize = 0x7fff_ffff;

/// One self-propelled particle: a position on the torus, a heading, and
/// the right/left/total neighbor counts of the current step.
#[derive(Clone, Copy, Debug, PartialEq, Eq, Structural)]
pub struct Particle {
    pub x: i64,
    pub y: i64,
    pub phi: i64,
    pub r: i32,
    pub l: i32,
    pub n: i32,
}

/// The particle store: an ordered sequence of particles, mutated in place
/// each step.
pub type Particles = Vec<Particle>;

/// Per-run configuration, immutable during a step.
#[derive(Clone, Copy, Debug, PartialEq, Eq, Structural)]
pub struct Parameters {
    /// Step distance per tick, in fixed-point ticks.
    pub velocity: i64,
    /// Interaction radius and spatial bin size, in fixed-point ticks.
    pub radius: i64,
    /// Base heading change per tick, in micro-radians.
    pub alpha: i64,
    /// Heading change per counted neighbor, in micro-radians.
    pub beta: i64,
    /// Target density at randomize time, in particles per unit area,
    /// scaled by `UNIT`.
    pub dpe: i64,
    /// Domain extent along x, in fixed-point ticks.
    pub x_max: i64,
    /// Domain extent along y, in fixed-point ticks.
    pub y_max: i64,
}

impl Particle {
    /// The particle lies inside the domain of `prm` and carries a
    /// normalized heading.
    pub open spec fn in_domain(self, prm: Parameters) -> bool {
        &&& 0 <= self.x < prm.x_max
        &&& 0 <= self.y < prm.y_max
        &&& -PI_FP <= self.phi <= PI_FP
    }
}

impl Default for Particle {
    /// A particle at the origin with heading `0` and cleared counts.
    fn default() -> (p: Particle)
        ensures
            p == (Particle { x: 0, y: 0, phi: 0, r: 0, l: 0, n: 0 }),
    {
        Particle { x: 0, y: 0, phi: 0, r: 0, l: 0, n: 0 }
    }
}

impl Parameters {
    /// Non-degenerate configuration: positive radius and extents, as the
    /// simulation requires, with the magnitude caps that keep every
    /// product of the fixed-point kernel inside `i64`.
    pub open spec fn valid_spec(self) -> bool {
        &&& 0 < self.radius <= MAX_EXTENT
        &&& 0 < self.x_max <= MAX_EXTENT
        &&& 0 < self.y_max <= MAX_EXTENT
        &&& 0 <= self.velocity <= MAX_EXTENT
        &&& -TWO_PI_FP <= self.alpha <= TWO_PI_FP
        &&& -TWO_PI_FP <= self.beta <= TWO_PI_FP
        &&& 0 <= self.dpe <= UNIT
    }

    /// Decide `valid_spec`.
    pub fn valid(&self) -> (b: bool)
        ensures
            b == self.valid_spec(),
    {
        self.radius > 0 && self.radius <= MAX_EXTENT
            && self.x_max > 0 && self.x_max <= MAX_EXTENT
            && self.y_max > 0 && self.y_max <= MAX_EXTENT
            && self.velocity >= 0 && self.velocity <= MAX_EXTENT
            && self.alpha >= -TWO_PI_FP && self.alpha <= TWO_PI_FP
            && self.beta >= -TWO_PI_FP && self.beta <= TWO_PI_FP
            && self.dpe >= 0 && self.dpe <= UNIT
    }
}

/// The documented default configuration: velocity 0.67, radius 5,
/// alpha pi, beta 17 degrees, dpe 0.09, a 250 by 250 domain.
pub open spec fn default_parameters() -> Parameters {
    Parameters {
        velocity: 670_000,
        radius: 5_000_000,
        alpha: PI_FP,
        beta: 296_706,
        dpe: 90_000,
        x_max: 250_000_000,
        y_max: 250_000_000,
    }
}

impl Default for Parameters {
    /// The documented default configuration, as `default_parameters`.
    fn default() -> (prm: Parameters)
        ensures
            prm == default_parameters(),
            prm.valid_spec(),
    {
        Parameters {
            velocity: 670_000,
            radius: 5_000_000,
            alpha: PI_FP,
            beta: 296_706,
            dpe: 90_000,
            x_max: 250_000_000,
            y_max: 250_000_000,
        }
    }
}

/// Every particle of the store lies in the domain, and the store is small
/// enough for `i32` neighbor counters.
pub open spec fn store_ok_spec(ps: Seq<Particle>, prm: Parameters) -> bool {
    &&& ps.len() <= MAX_PARTICLES
    &&& forall|i: int| 0 <= i < ps.len() ==> #[trigger] ps[i].in_domain(prm)
}

/// Decide `store_ok_spec`.
pub fn store_ok(ps: &Particles, prm: &Parameters) -> (b: bool)
    ensures
        b == store_ok_spec(ps@, *prm),
{
    if ps.len() > MAX_PARTICLES {
        return false;
    }
    for i in 0..ps.len()
        invariant
            ps.len() <= MAX_PARTICLES,
            forall|j: int| 0 <= j < i ==> #[trigger] ps@[j].in_domain(*prm),
    {
        let p = ps[i];
        if !(p.x >= 0 && p.x < prm.x_max && p.y >= 0 && p.y < prm.y_max
            && p.phi >= -PI_FP && p.phi <= PI_FP) {
            assert(!ps@[i as int].in_domain(*prm));
            return false;
        }
    }
    true
}

/// The display class of a particle with neighbor total `n`: the four
/// color buckets of the renderer, split at 13, 16 and 36.
pub fn display_class(n: i32) -> (c: u8)
    ensures
        c == (if n < 13 { 0u8 } else if n <= 15 { 1u8 } else if n <= 35 { 2u8 } else { 3u8 }),
{
    if n < 13 {
        0
    } else if n <= 15 {
        1
    } else if n <= 35 {
        2
    } else {
        3
    }
}

} // verus!
