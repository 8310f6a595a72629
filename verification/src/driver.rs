//! The simulation driver: owns the particle store and the parameters,
//! runs the two-phase step (analyze, then integrate) a requested number
//! of times, and repopulates the store at random on request. Degenerate
//! parameters are rejected before any spatial index is built, with the
//! state left unchanged.
//!
//! The driver also models the in-flight gate of the asynchronous shell:
//! at most one tick or randomize is in flight; a request that arrives
//! while one is running is refused as a no-op, never queued.

use vstd::prelude::*;
use crate::soup::{Particle, Particles, Parameters, store_ok, store_ok_spec, MAX_PARTICLES,
    default_parameters};
use crate::torus::{UNIT, PI_FP, TWO_PI_FP};
use crate::analyze::{analyze, analyzed_spec};
use crate::integrate::{integrate, integrate_one_spec};
use crate::trig::lemma_div_strict_bound_pub;

verus! {

/// Why a tick or randomize request was refused.
#[derive(Clone, Copy, Debug, PartialEq, Eq, Structural)]
pub enum ConfigError {
    /// The parameters are degenerate: radius or a domain extent is not
    /// positive, or a magnitude cap is exceeded.
    BadParameters,
    /// A particle lies outside the domain of the current parameters.
    BadStore,
}

/// What the driver is doing right now.
#[derive(Clone, Copy, Debug, PartialEq, Eq, Structural)]
pub enum Phase {
    Idle,
    Ticking,
    Randomizing,
}

/// The store after one full step: analyze, then integrate.
pub open spec fn step_spec(ps: Seq<Particle>, prm: Parameters) -> Seq<Particle> {
    Seq::new(ps.len(), |k: int| integrate_one_spec(analyzed_spec(ps, prm)[k], prm))
}

/// The store after `t` full steps.
pub open spec fn ticks_spec(ps: Seq<Particle>, prm: Parameters, t: nat) -> Seq<Particle>
    decreases t,
{
    if t == 0 {
        ps
    } else {
        ticks_spec(step_spec(ps, prm), prm, (t - 1) as nat)
    }
}

/// Number of particles a randomize produces: `x_max * y_max * dpe`
/// rounded to the nearest integer, computed on the fixed-point values.
pub open spec fn expected_count(prm: Parameters) -> int {
    (prm.x_max as int * (prm.y_max as int) * (prm.dpe as int) + 500_000_000_000_000_000)
        / 1_000_000_000_000_000_000
}

/// One full step of the simulation: neighbor analysis over the rebuilt
/// spatial index, then integration, strictly in that order.
pub fn step(ps: &mut Particles, prm: &Parameters)
    requires
        prm.valid_spec(),
        store_ok_spec(old(ps)@, *prm),
    ensures
        final(ps)@ == step_spec(old(ps)@, *prm),
        store_ok_spec(final(ps)@, *prm),
{
    analyze(ps, prm);
    integrate(ps, prm);
    proof {
        assert(ps@ =~= step_spec(old(ps)@, *prm));
    }
}

/// Relies on rand::random for a machine random number; nothing is
/// promised of the value.
#[verifier::external_body]
fn random_u64() -> u64 {
    rand::random::<u64>()
}

/// A value in `[0, max)` drawn from the machine randomness; nothing is
/// promised about its distribution.
fn uniform_below(max: i64) -> (r: i64)
    requires
        0 < max,
    ensures
        0 <= r < max,
{
    let x = random_u64();
    (x % (max as u64)) as i64
}

/// The simulation driver.
pub struct Pps {
    pub particles: Particles,
    pub parameters: Parameters,
    pub phase: Phase,
}

impl Pps {
    /// A fresh driver: empty store, default parameters, idle.
    pub fn new() -> (s: Pps)
        ensures
            s.particles@.len() == 0,
            s.parameters == default_parameters(),
            s.phase == Phase::Idle,
    {
        Pps {
            particles: Vec::new(),
            parameters: Parameters::default(),
            phase: Phase::Idle,
        }
    }

    /// Run `amount` full steps. Degenerate parameters or an
    /// out-of-domain store are refused, if and only if present, with
    /// the state unchanged; otherwise the store afterwards is exactly
    /// `amount` spec steps of the store before.
    pub fn tick(&mut self, amount: usize) -> (res: Result<(), ConfigError>)
        ensures
            final(self).parameters == old(self).parameters,
            final(self).phase == old(self).phase,
            res == Ok::<(), ConfigError>(()) <==> (old(self).parameters.valid_spec()
                && store_ok_spec(old(self).particles@, old(self).parameters)),
            !old(self).parameters.valid_spec()
                ==> res == Err::<(), ConfigError>(ConfigError::BadParameters),
            old(self).parameters.valid_spec()
                && !store_ok_spec(old(self).particles@, old(self).parameters)
                ==> res == Err::<(), ConfigError>(ConfigError::BadStore),
            res is Err ==> final(self).particles@ == old(self).particles@,
            res is Ok ==> final(self).particles@
                == ticks_spec(old(self).particles@, old(self).parameters, amount as nat),
    {
        if !self.parameters.valid() {
            return Err(ConfigError::BadParameters);
        }
        if !store_ok(&self.particles, &self.parameters) {
            return Err(ConfigError::BadStore);
        }
        let ghost ps0 = self.particles@;
        let ghost prm = self.parameters;
        for i in 0..amount
            invariant
                self.parameters == prm,
                self.phase == old(self).phase,
                prm.valid_spec(),
                store_ok_spec(self.particles@, prm),
                ticks_spec(ps0, prm, amount as nat)
                    == ticks_spec(self.particles@, prm, (amount - i) as nat),
        {
            proof {
                assert(ticks_spec(self.particles@, prm, (amount - i) as nat)
                    == ticks_spec(step_spec(self.particles@, prm), prm,
                        (amount - i - 1) as nat));
            }
            step(&mut self.particles, &self.parameters);
        }
        Ok(())
    }

    /// Clear the store and repopulate it with `expected_count`
    /// particles, each at a random position in the domain with a random
    /// heading and cleared counts. The count is deterministic even
    /// though the placement is random.
    pub fn randomize(&mut self) -> (res: Result<(), ConfigError>)
        ensures
            final(self).parameters == old(self).parameters,
            final(self).phase == old(self).phase,
            res == Ok::<(), ConfigError>(()) <==> old(self).parameters.valid_spec(),
            !old(self).parameters.valid_spec()
                ==> res == Err::<(), ConfigError>(ConfigError::BadParameters)
                    && final(self).particles@ == old(self).particles@,
            res is Ok ==> {
                &&& final(self).particles@.len() == expected_count(old(self).parameters)
                &&& forall|k: int| 0 <= k < final(self).particles@.len()
                    ==> (#[trigger] final(self).particles@[k]).r == 0
                        && final(self).particles@[k].l == 0
                        && final(self).particles@[k].n == 0
                &&& store_ok_spec(final(self).particles@, old(self).parameters)
            },
    {
        if !self.parameters.valid() {
            return Err(ConfigError::BadParameters);
        }
        let prm = self.parameters;
        proof {
            assert(0 <= prm.x_max as int * (prm.y_max as int) <= 4_000_000_000_000_000_000
                && 0 <= prm.x_max as int * (prm.y_max as int) * (prm.dpe as int)
                    <= 4_000_000_000_000_000_000_000_000) by (nonlinear_arith)
                requires
                    0 < prm.x_max as int <= 2_000_000_000,
                    0 < prm.y_max as int <= 2_000_000_000,
                    0 <= prm.dpe as int <= 1_000_000;
        }
        let xy: u128 = (prm.x_max as u128) * (prm.y_max as u128);
        let prod: u128 = xy * (prm.dpe as u128);
        proof {
            lemma_div_strict_bound_pub(
                prod as int + 500_000_000_000_000_000,
                1_000_000_000_000_000_000,
                4_000_001,
            );
        }
        let count: usize =
            (((prod + 500_000_000_000_000_000) / 1_000_000_000_000_000_000) as u64) as usize;
        let mut fresh: Particles = Vec::new();
        for i in 0..count
            invariant
                prm.valid_spec(),
                count as int == expected_count(prm),
                count <= MAX_PARTICLES,
                fresh@.len() == i,
                forall|k: int| 0 <= k < i
                    ==> (#[trigger] fresh@[k]).r == 0 && fresh@[k].l == 0 && fresh@[k].n == 0,
                forall|k: int| 0 <= k < i ==> (#[trigger] fresh@[k]).in_domain(prm),
        {
            let x = uniform_below(prm.x_max);
            let y = uniform_below(prm.y_max);
            let phi = uniform_below(TWO_PI_FP) - PI_FP;
            fresh.push(Particle { x, y, phi, r: 0, l: 0, n: 0 });
        }
        self.particles = fresh;
        Ok(())
    }

    /// Try to enter the ticking phase: succeeds only from idle; a
    /// request while busy is refused and changes nothing.
    pub fn begin_tick(&mut self) -> (ok: bool)
        ensures
            final(self).particles == old(self).particles,
            final(self).parameters == old(self).parameters,
            ok <==> old(self).phase == Phase::Idle,
            ok ==> final(self).phase == Phase::Ticking,
            !ok ==> final(self).phase == old(self).phase,
    {
        match self.phase {
            Phase::Idle => {
                self.phase = Phase::Ticking;
                true
            }
            _ => false,
        }
    }

    /// Try to enter the randomizing phase: succeeds only from idle.
    pub fn begin_randomize(&mut self) -> (ok: bool)
        ensures
            final(self).particles == old(self).particles,
            final(self).parameters == old(self).parameters,
            ok <==> old(self).phase == Phase::Idle,
            ok ==> final(self).phase == Phase::Randomizing,
            !ok ==> final(self).phase == old(self).phase,
    {
        match self.phase {
            Phase::Idle => {
                self.phase = Phase::Randomizing;
                true
            }
            _ => false,
        }
    }

    /// Return to idle when the operation in flight completes.
    pub fn finish(&mut self)
        ensures
            final(self).particles == old(self).particles,
            final(self).parameters == old(self).parameters,
            final(self).phase == Phase::Idle,
    {
        self.phase = Phase::Idle;
    }

    /// A read-only view of the particle store, for rendering and
    /// inspection between ticks.
    pub fn snapshot(&self) -> (ps: &Particles)
        ensures
            ps@ == self.particles@,
    {
        &self.particles
    }

    /// Replace the parameters; the store is revalidated against them on
    /// the next tick.
    pub fn set_parameters(&mut self, prm: Parameters)
        ensures
            final(self).particles == old(self).particles,
            final(self).phase == old(self).phase,
            final(self).parameters == prm,
    {
        self.parameters = prm;
    }
}

} // verus!
