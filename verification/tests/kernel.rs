use pps::analyze::{analyze, analyze_brute};
use pps::driver::{ConfigError, Phase, Pps};
use pps::integrate::integrate;
use pps::soup::{display_class, Parameters, Particle};
use pps::torus::{wrap, wrap2, PI_FP, TWO_PI_FP, UNIT};
use pps::trig::{atan2_fp, cos_fp, sin_fp};

fn particle(x: i64, y: i64, phi: i64) -> Particle {
    Particle {
        x,
        y,
        phi,
        r: 0,
        l: 0,
        n: 0,
    }
}

#[test]
fn wrap_folds_into_domain() {
    assert_eq!(wrap(0, 10), 0);
    assert_eq!(wrap(9, 10), 9);
    assert_eq!(wrap(10, 10), 0);
    assert_eq!(wrap(23, 10), 3);
    assert_eq!(wrap(-1, 10), 9);
    assert_eq!(wrap(-10, 10), 0);
    assert_eq!(wrap(-23, 10), 7);
}

#[test]
fn wrap_range_holds_for_many_inputs() {
    let max = 250_000_000i64;
    let mut v: i64 = -987_654_321;
    for _ in 0..1000 {
        let r = wrap(v, max);
        assert!(0 <= r && r < max);
        assert_eq!((r - v).rem_euclid(max), 0);
        v = v.wrapping_mul(31).wrapping_add(17) % 1_000_000_000;
    }
}

#[test]
fn wrap2_shortest_signed_offset() {
    // 0.1 and 249.9 on a 250-wide torus are 0.2 apart through the seam
    assert_eq!(wrap2(249_800_000, 250_000_000), -200_000);
    assert_eq!(wrap2(-249_800_000, 250_000_000), 200_000);
    assert_eq!(wrap2(0, 10), 0);
    assert_eq!(wrap2(5, 10), 5);
    assert_eq!(wrap2(6, 10), -4);
    assert_eq!(wrap2(-6, 10), 4);
}

#[test]
fn wrap2_range_holds_for_many_inputs() {
    let max = 77_777i64;
    let mut v: i64 = -444_444_444;
    for _ in 0..1000 {
        let r = wrap2(v, max);
        assert!(-max < 2 * r && 2 * r <= max);
        v = v.wrapping_mul(29).wrapping_add(101) % 500_000_000;
    }
}

#[test]
fn trig_fixed_points() {
    assert_eq!(sin_fp(0), 0);
    assert_eq!(sin_fp(PI_FP), 0);
    assert_eq!(cos_fp(0), sin_fp(pps::torus::HALF_PI_FP));
    // sine peaks close to one at a quarter turn
    let s = sin_fp(pps::torus::HALF_PI_FP);
    assert!((999_000..=1_000_000).contains(&s));
    // odd symmetry of the sine
    assert_eq!(sin_fp(1_000_000), -sin_fp(-1_000_000));
}

#[test]
fn atan2_quadrants() {
    assert_eq!(atan2_fp(0, 1_000_000), 0);
    assert_eq!(atan2_fp(0, 0), 0);
    let q1 = atan2_fp(1_000_000, 1_000_000);
    assert_eq!(q1, pps::torus::QUARTER_PI_FP);
    let up = atan2_fp(1_000_000, 0);
    assert_eq!(up, pps::torus::HALF_PI_FP);
    let left = atan2_fp(0, -1_000_000);
    assert_eq!(left, PI_FP);
    let q3 = atan2_fp(-1_000_000, -1_000_000);
    assert_eq!(q3, pps::torus::QUARTER_PI_FP - PI_FP);
}

#[test]
fn default_parameters_are_the_documented_ones() {
    let prm = Parameters::default();
    assert_eq!(prm.velocity, 670_000);
    assert_eq!(prm.radius, 5_000_000);
    assert_eq!(prm.alpha, PI_FP);
    assert_eq!(prm.beta, 296_706);
    assert_eq!(prm.dpe, 90_000);
    assert_eq!(prm.x_max, 250_000_000);
    assert_eq!(prm.y_max, 250_000_000);
}

#[test]
fn boundary_pair_is_detected_across_the_seam() {
    // x = 0.1 and x = 249.9 with x_max = 250 and radius = 5: neighbors
    // through the wrap even though the raw distance is 249.8
    let prm = Parameters::default();
    let mut ps = vec![
        particle(100_000, 1_000_000, 0),
        particle(249_900_000, 1_000_000, 0),
    ];
    analyze(&mut ps, &prm);
    assert_eq!(ps[0].n, 1);
    assert_eq!(ps[1].n, 1);
    assert_eq!(ps[0].r + ps[0].l, 1);
    assert_eq!(ps[1].r + ps[1].l, 1);
}

#[test]
fn distant_pair_is_not_detected() {
    let prm = Parameters::default();
    let mut ps = vec![
        particle(100_000, 1_000_000, 0),
        particle(125_000_000, 1_000_000, 0),
    ];
    analyze(&mut ps, &prm);
    assert_eq!(ps[0].n, 0);
    assert_eq!(ps[1].n, 0);
}

#[test]
fn boundary_exact_distance_does_not_count() {
    // squared distance exactly equal to the squared radius is excluded
    let prm = Parameters::default();
    let mut ps = vec![
        particle(10_000_000, 1_000_000, 0),
        particle(15_000_000, 1_000_000, 0),
    ];
    analyze(&mut ps, &prm);
    assert_eq!(ps[0].n, 0);
    assert_eq!(ps[1].n, 0);
}

#[test]
fn heading_update_formula_is_exact() {
    // r = 5, l = 2, alpha = pi, beta = 17 degrees: phi moves by exactly
    // alpha + beta * 7 * sign(3), then is rewrapped
    let mut prm = Parameters::default();
    prm.velocity = 0;
    let mut p = particle(1_000_000, 1_000_000, 0);
    p.r = 5;
    p.l = 2;
    let mut ps = vec![p];
    integrate(&mut ps, &prm);
    let raw: i64 = 0 + prm.alpha + prm.beta * 7 * 1;
    let expected = (raw + PI_FP).rem_euclid(TWO_PI_FP) - PI_FP;
    assert_eq!(ps[0].phi, expected);
    assert_eq!(expected, -1_064_651);
    // velocity is zero, so the position must not move
    assert_eq!(ps[0].x, 1_000_000);
    assert_eq!(ps[0].y, 1_000_000);
    // counters survive integration untouched
    assert_eq!(ps[0].r, 5);
    assert_eq!(ps[0].l, 2);
}

#[test]
fn zero_imbalance_turns_by_alpha_alone() {
    let mut prm = Parameters::default();
    prm.velocity = 0;
    let mut p = particle(1_000_000, 1_000_000, 100_000);
    p.r = 3;
    p.l = 3;
    let mut ps = vec![p];
    integrate(&mut ps, &prm);
    let expected = (100_000 + prm.alpha + PI_FP).rem_euclid(TWO_PI_FP) - PI_FP;
    assert_eq!(ps[0].phi, expected);
}

fn lcg_store(n: usize, prm: &Parameters, seed: u64) -> Vec<Particle> {
    let mut state = seed;
    let mut next = || {
        state = state
            .wrapping_mul(6364136223846793005)
            .wrapping_add(1442695040888963407);
        state >> 11
    };
    let mut ps = Vec::new();
    for _ in 0..n {
        let x = (next() % prm.x_max as u64) as i64;
        let y = (next() % prm.y_max as u64) as i64;
        let phi = (next() % TWO_PI_FP as u64) as i64 - PI_FP;
        ps.push(particle(x, y, phi));
    }
    ps
}

#[test]
fn grid_search_equals_brute_force_on_random_stores() {
    // the no-double-counting law, exercised on concrete stores: the bin
    // size divides the domain, so the two scans must agree exactly
    let prm = Parameters::default();
    for seed in [7u64, 99u64, 1234567u64] {
        let base = lcg_store(50, &prm, seed);
        let mut grid_ps = base.clone();
        let mut brute_ps = base.clone();
        analyze(&mut grid_ps, &prm);
        analyze_brute(&mut brute_ps, &prm);
        for k in 0..50 {
            assert_eq!(grid_ps[k].r, brute_ps[k].r, "r mismatch at {k}");
            assert_eq!(grid_ps[k].l, brute_ps[k].l, "l mismatch at {k}");
            assert_eq!(grid_ps[k].n, brute_ps[k].n, "n mismatch at {k}");
        }
    }
}

#[test]
fn neighbor_totals_are_twice_the_pairs() {
    // the symmetry law on a concrete store: the counter total is even
    // and equals twice the number of interacting pairs
    let prm = Parameters::default();
    let base = lcg_store(40, &prm, 4242);
    let mut ps = base.clone();
    analyze(&mut ps, &prm);
    let total: i64 = ps.iter().map(|p| p.n as i64).sum();
    // count the pairs by hand with the wrap-aware distance
    let mut pairs = 0i64;
    for i in 0..40 {
        for j in (i + 1)..40 {
            let dx = wrap2(base[j].x - base[i].x, prm.x_max);
            let dy = wrap2(base[j].y - base[i].y, prm.y_max);
            if dx * dx + dy * dy < prm.radius * prm.radius {
                pairs += 1;
            }
        }
    }
    assert_eq!(total, 2 * pairs);
}

#[test]
fn tick_conserves_particle_count() {
    let mut sim = Pps::new();
    sim.particles = lcg_store(30, &sim.parameters.clone(), 5);
    assert_eq!(sim.tick(4), Ok(()));
    assert_eq!(sim.particles.len(), 30);
}

#[test]
fn tick_is_deterministic() {
    let prm = Parameters::default();
    let base = lcg_store(25, &prm, 77);
    let mut a = Pps::new();
    let mut b = Pps::new();
    a.particles = base.clone();
    b.particles = base.clone();
    assert_eq!(a.tick(2), Ok(()));
    assert_eq!(b.tick(2), Ok(()));
    assert_eq!(a.particles, b.particles);
}

#[test]
fn randomize_count_is_deterministic() {
    // 250 * 250 * 0.09 rounds to 5625 particles, every time
    let mut sim = Pps::new();
    assert_eq!(sim.randomize(), Ok(()));
    assert_eq!(sim.particles.len(), 5625);
    assert_eq!(sim.randomize(), Ok(()));
    assert_eq!(sim.particles.len(), 5625);
    for p in sim.particles.iter() {
        assert!(0 <= p.x && p.x < sim.parameters.x_max);
        assert!(0 <= p.y && p.y < sim.parameters.y_max);
        assert!(-PI_FP <= p.phi && p.phi <= PI_FP);
        assert_eq!(p.r, 0);
        assert_eq!(p.l, 0);
        assert_eq!(p.n, 0);
    }
}

#[test]
fn degenerate_parameters_are_rejected() {
    let mut sim = Pps::new();
    sim.parameters.radius = 0;
    assert_eq!(sim.tick(1), Err(ConfigError::BadParameters));
    assert_eq!(sim.randomize(), Err(ConfigError::BadParameters));
    let mut sim2 = Pps::new();
    sim2.parameters.x_max = -5;
    assert_eq!(sim2.tick(1), Err(ConfigError::BadParameters));
}

#[test]
fn out_of_domain_store_is_rejected() {
    let mut sim = Pps::new();
    sim.particles = vec![particle(260_000_000, 1_000_000, 0)];
    assert_eq!(sim.tick(1), Err(ConfigError::BadStore));
    // the store is left untouched
    assert_eq!(sim.particles[0].x, 260_000_000);
}

#[test]
fn overlapping_requests_are_suppressed() {
    let mut sim = Pps::new();
    assert!(sim.begin_tick());
    assert_eq!(sim.phase, Phase::Ticking);
    assert!(!sim.begin_tick());
    assert!(!sim.begin_randomize());
    sim.finish();
    assert_eq!(sim.phase, Phase::Idle);
    assert!(sim.begin_randomize());
    assert!(!sim.begin_tick());
    sim.finish();
    assert!(sim.begin_tick());
}

#[test]
fn display_classes_split_at_the_documented_thresholds() {
    assert_eq!(display_class(0), 0);
    assert_eq!(display_class(12), 0);
    assert_eq!(display_class(13), 1);
    assert_eq!(display_class(15), 1);
    assert_eq!(display_class(16), 2);
    assert_eq!(display_class(35), 2);
    assert_eq!(display_class(36), 3);
    assert_eq!(display_class(1000), 3);
}

#[test]
fn ticking_moves_particles_by_the_velocity() {
    // a lone particle never meets a neighbor: it turns by alpha each
    // step and advances by the velocity along its new heading
    let mut sim = Pps::new();
    sim.particles = vec![particle(125_000_000, 125_000_000, 0)];
    assert_eq!(sim.tick(1), Ok(()));
    let p = &sim.particles[0];
    // after turning by alpha = pi the heading points backwards
    assert_eq!(p.phi, -PI_FP);
    // and the step moved it by velocity * cos(-pi) along x
    assert!(p.x < 125_000_000);
    assert_eq!(p.y, 125_000_000 + sim.parameters.velocity * sin_fp(-PI_FP) / UNIT);
}

#[test]
fn empty_store_ticks_without_effect() {
    let mut sim = Pps::new();
    assert_eq!(sim.tick(5), Ok(()));
    assert_eq!(sim.particles.len(), 0);
}

#[test]
fn zero_density_randomizes_to_an_empty_store() {
    let mut sim = Pps::new();
    sim.parameters.dpe = 0;
    assert_eq!(sim.randomize(), Ok(()));
    assert_eq!(sim.particles.len(), 0);
}

#[test]
fn coincident_particles_count_each_other() {
    // distance zero is strictly below the radius, so the pair counts;
    // the degenerate bearing is defined as zero
    let prm = Parameters::default();
    let mut ps = vec![
        particle(50_000_000, 50_000_000, 0),
        particle(50_000_000, 50_000_000, 0),
    ];
    analyze(&mut ps, &prm);
    assert_eq!(ps[0].n, 1);
    assert_eq!(ps[1].n, 1);
}
