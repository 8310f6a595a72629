//! The global laws of the kernel: ticking conserves the particle count,
//! a step is a function of the snapshot alone, the grid scan agrees with
//! the brute-force all-pairs scan whenever the bin size divides the
//! domain evenly, and one step's total neighbor increments are twice the
//! number of interacting pairs.

use vstd::prelude::*;
use vstd::arithmetic::div_mod::{
    lemma_fundamental_div_mod, lemma_fundamental_div_mod_converse_mod,
    lemma_div_is_ordered, lemma_div_pos_is_pos, lemma_mod_bound, lemma_small_mod, lemma_mod_self_0, lemma_mod_add_multiples_vanish,
    lemma_basic_div,
};
use crate::soup::{Particle, Parameters, store_ok_spec};
use crate::torus::wrap2_spec;
use crate::grid::{dim_spec, rows_spec, cols_spec, row_of, col_of};
use crate::analyze::{
    circ_adj, sees_pred, brute_pred, pair_close, dx_spec, dy_spec,
    r_cnt, l_cnt, n_cnt, rb_cnt, lb_cnt, nb_cnt,
};
use crate::driver::{step_spec, ticks_spec};
use crate::count::{cnt, lemma_cnt_ext};

verus! {

/// Conservation: ticking neither creates nor destroys particles; the
/// store after any number of steps has exactly the length it started
/// with.
pub proof fn lemma_ticks_conserve_count(ps: Seq<Particle>, prm: Parameters, t: nat)
    ensures
        ticks_spec(ps, prm, t).len() == ps.len(),
    decreases t,
{
    if t > 0 {
        lemma_ticks_conserve_count(step_spec(ps, prm), prm, (t - 1) as nat);
    }
}

/// Determinism: a tick draws no randomness, so the store after `t`
/// steps is a function of the starting snapshot and the parameters
/// alone; two runs from equal snapshots end equal, bit for bit.
pub proof fn lemma_ticks_deterministic(
    ps1: Seq<Particle>, ps2: Seq<Particle>, prm: Parameters, t: nat,
)
    requires
        ps1 == ps2,
    ensures
        ticks_spec(ps1, prm, t) == ticks_spec(ps2, prm, t),
{
}

/// On an axis of `m` bins, the circular successor and predecessor of a
/// bin index have their closed forms.
proof fn lemma_mod_succ_pred(a: int, m: int)
    requires
        0 <= a < m,
    ensures
        (a + 1) % m == (if a == m - 1 { 0int } else { a + 1 }),
        (a + m - 1) % m == (if a == 0 { m - 1 } else { a - 1 }),
{
    if a == m - 1 {
        lemma_mod_self_0(m);
    } else {
        lemma_small_mod((a + 1) as nat, m as nat);
    }
    if a == 0 {
        lemma_small_mod((m - 1) as nat, m as nat);
    } else {
        lemma_mod_add_multiples_vanish(a - 1, m);
        lemma_small_mod((a - 1) as nat, m as nat);
    }
}

/// Circular bin adjacency is symmetric.
pub proof fn lemma_circ_adj_sym(a: int, b: int, m: int)
    requires
        0 <= a < m,
        0 <= b < m,
    ensures
        circ_adj(a, b, m) == circ_adj(b, a, m),
{
    lemma_mod_succ_pred(a, m);
    lemma_mod_succ_pred(b, m);
}

/// When the bin width divides the axis length, the number of bins is
/// exactly the quotient.
proof fn lemma_dim_divisible(ext: int, radius: int)
    requires
        0 < radius,
        0 < ext,
        ext % radius == 0,
    ensures
        dim_spec(ext, radius) == ext / radius,
        ext == radius * (ext / radius),
{
    lemma_fundamental_div_mod(ext, radius);
    let c = ext / radius;
    assert(ext + radius - 1 == c * radius + (radius - 1)) by (nonlinear_arith)
        requires ext == radius * c;
    lemma_fundamental_div_mod_converse_mod(ext + radius - 1, radius, c, radius - 1);
    // quotient form of the converse
    lemma_div_pos_is_pos(ext, radius);
    assert((ext + radius - 1) / radius == c) by {
        lemma_fundamental_div_mod(ext + radius - 1, radius);
        let q = (ext + radius - 1) / radius;
        assert((ext + radius - 1) % radius == radius - 1);
        assert(radius * q == radius * c) by (nonlinear_arith)
            requires
                ext + radius - 1 == radius * q + (radius - 1),
                ext + radius - 1 == c * radius + (radius - 1);
        assert(q == c) by (nonlinear_arith)
            requires radius * q == radius * c, 0 < radius;
    }
}

/// A value `v` with `q * radius <= v < (q + 1) * radius` falls in bin `q`.
proof fn lemma_div_in_bin(v: int, q: int, radius: int)
    requires
        0 < radius,
        q * radius <= v < (q + 1) * radius,
    ensures
        v / radius == q,
{
    assert(0 <= v - q * radius < radius) by (nonlinear_arith)
        requires q * radius <= v, v < (q + 1) * radius;
    assert(v == q * radius + (v - q * radius));
    lemma_fundamental_div_mod_converse_mod(v, radius, q, v - q * radius);
    lemma_fundamental_div_mod(v, radius);
    let p = v / radius;
    assert(radius * p == radius * q) by (nonlinear_arith)
        requires
            v == radius * p + v % radius,
            v == q * radius + (v % radius);
    assert(p == q) by (nonlinear_arith)
        requires radius * p == radius * q, 0 < radius;
}

/// A coordinate inside an axis of a whole number of bins falls in a bin
/// index inside the bin range.
proof fn lemma_bin_range(v: int, ext: int, radius: int)
    requires
        0 < radius,
        0 < ext,
        ext % radius == 0,
        0 <= v < ext,
    ensures
        0 <= v / radius < ext / radius,
{
    lemma_dim_divisible(ext, radius);
    let cdim = ext / radius;
    lemma_div_pos_is_pos(v, radius);
    lemma_div_is_ordered(v, ext - 1, radius);
    assert((cdim - 1) * radius <= ext - 1 && ext - 1 < cdim * radius) by (nonlinear_arith)
        requires ext == radius * cdim, 0 < radius;
    lemma_div_in_bin(ext - 1, cdim - 1, radius);
}

/// On one axis of a torus whose length is a whole number of bins, two
/// coordinates closer than one bin width (by shortest wrap-aware offset)
/// lie in the same or in circularly adjacent bins.
proof fn lemma_close_implies_adj(x1: int, x2: int, ext: int, radius: int)
    requires
        0 < radius,
        0 < ext,
        ext % radius == 0,
        0 <= x1 < ext,
        0 <= x2 < ext,
        -radius < wrap2_spec(x2 - x1, ext),
        wrap2_spec(x2 - x1, ext) < radius,
    ensures
        circ_adj(x1 / radius, x2 / radius, dim_spec(ext, radius)),
{
    lemma_dim_divisible(ext, radius);
    let cdim = ext / radius;
    let c1 = x1 / radius;
    let c2 = x2 / radius;
    lemma_div_pos_is_pos(x1, radius);
    lemma_div_pos_is_pos(x2, radius);
    lemma_fundamental_div_mod(x1, radius);
    lemma_fundamental_div_mod(x2, radius);
    lemma_mod_bound(x1, radius);
    lemma_mod_bound(x2, radius);
    lemma_bin_range(x1, ext, radius);
    lemma_bin_range(x2, ext, radius);
    lemma_mod_succ_pred(c1, cdim);
    let t = (x2 - x1) % ext;
    lemma_mod_bound(x2 - x1, ext);
    lemma_fundamental_div_mod(x2 - x1, ext);
    let q = (x2 - x1) / ext;
    assert(q == 0 || q == -1) by (nonlinear_arith)
        requires
            x2 - x1 == ext * q + t,
            0 <= t < ext,
            -ext < x2 - x1 < ext;
    let d = wrap2_spec(x2 - x1, ext);
    if d == t {
        // no wrap in the shortest offset
        if x2 - x1 == t {
            if t >= 0 {
                // x2 is at most one bin width above x1
                assert(c1 * radius <= x2 < (c1 + 2) * radius) by (nonlinear_arith)
                    requires
                        x1 == radius * c1 + x1 % radius,
                        0 <= x1 % radius < radius,
                        x1 <= x2 < x1 + radius;
                if x2 < (c1 + 1) * radius {
                    lemma_div_in_bin(x2, c1, radius);
                } else {
                    lemma_div_in_bin(x2, c1 + 1, radius);
                }
            }
        } else {
            // x2 wrapped past the upper edge: x1 in the last bin, x2 in bin 0
            assert(x2 == x1 + t - ext);
            assert(x1 > ext - radius);
            assert(c1 == cdim - 1) by {
                assert((cdim - 1) * radius <= x1 < cdim * radius) by (nonlinear_arith)
                    requires x1 > ext - radius, x1 < ext, ext == radius * cdim;
                lemma_div_in_bin(x1, cdim - 1, radius);
            }
            assert(x2 < radius);
            lemma_basic_div(x2, radius);
        }
    } else {
        // d == t - ext
        if x2 - x1 == t - ext {
            // x1 is at most one bin width above x2
            assert(c2 * radius <= x1 < (c2 + 2) * radius) by (nonlinear_arith)
                requires
                    x2 == radius * c2 + x2 % radius,
                    0 <= x2 % radius < radius,
                    x2 <= x1 < x2 + radius;
            lemma_mod_succ_pred(c2, cdim);
            if x1 < (c2 + 1) * radius {
                lemma_div_in_bin(x1, c2, radius);
            } else {
                lemma_div_in_bin(x1, c2 + 1, radius);
            }
        } else {
            // x1 wrapped past the upper edge: x2 in the last bin, x1 in bin 0
            assert(x2 == x1 + t);
            assert(x2 > ext - radius);
            assert(c2 == cdim - 1) by {
                assert((cdim - 1) * radius <= x2 < cdim * radius) by (nonlinear_arith)
                    requires x2 > ext - radius, x2 < ext, ext == radius * cdim;
                lemma_div_in_bin(x2, cdim - 1, radius);
            }
            assert(x1 < radius);
            lemma_basic_div(x1, radius);
        }
    }
}

/// No double-counting, no missed pairs: when the bin width divides both
/// domain extents, the grid scan counts exactly the pairs of the
/// brute-force all-pairs wrap-aware scan, for every particle.
pub proof fn lemma_grid_matches_brute(ps: Seq<Particle>, prm: Parameters, k: int)
    requires
        prm.valid_spec(),
        store_ok_spec(ps, prm),
        prm.x_max as int % (prm.radius as int) == 0,
        prm.y_max as int % (prm.radius as int) == 0,
        0 <= k < ps.len(),
    ensures
        r_cnt(ps, prm, k) == rb_cnt(ps, prm, k),
        l_cnt(ps, prm, k) == lb_cnt(ps, prm, k),
        n_cnt(ps, prm, k) == nb_cnt(ps, prm, k),
{
    let ni = ps.len() as int;
    assert forall|m: int| 0 <= m < ni
        implies #[trigger] sees_pred(ps, prm, k, m) == brute_pred(ps, prm, k, m) by {
        if brute_pred(ps, prm, k, m) {
            lemma_sees_of_brute(ps, prm, k, m);
        }
    }
    lemma_cnt_ext(
        |m: int| sees_pred(ps, prm, k, m) && crate::analyze::sees_right_spec(ps, prm, k, m),
        |m: int| brute_pred(ps, prm, k, m) && crate::analyze::sees_right_spec(ps, prm, k, m),
        ni);
    lemma_cnt_ext(
        |m: int| sees_pred(ps, prm, k, m) && !crate::analyze::sees_right_spec(ps, prm, k, m),
        |m: int| brute_pred(ps, prm, k, m) && !crate::analyze::sees_right_spec(ps, prm, k, m),
        ni);
    lemma_cnt_ext(
        |m: int| sees_pred(ps, prm, k, m),
        |m: int| brute_pred(ps, prm, k, m),
        ni);
}

/// A brute pair within the radius lies in adjacent bins on both axes.
proof fn lemma_sees_of_brute(ps: Seq<Particle>, prm: Parameters, k: int, m: int)
    requires
        prm.valid_spec(),
        store_ok_spec(ps, prm),
        prm.x_max as int % (prm.radius as int) == 0,
        prm.y_max as int % (prm.radius as int) == 0,
        0 <= k < ps.len(),
        0 <= m < ps.len(),
        brute_pred(ps, prm, k, m),
    ensures
        sees_pred(ps, prm, k, m),
{
    let i = if k < m { k } else { m };
    let j = if k < m { m } else { k };
    assert(pair_close(ps, prm, i, j));
    let dx = dx_spec(ps, prm, i, j);
    let dy = dy_spec(ps, prm, i, j);
    let radius = prm.radius as int;
    assert(-radius < dx < radius && -radius < dy < radius) by (nonlinear_arith)
        requires
            dx * dx + dy * dy < radius * radius,
            0 < radius;
    assert(ps[i].in_domain(prm));
    assert(ps[j].in_domain(prm));
    lemma_close_implies_adj(ps[i].x as int, ps[j].x as int, prm.x_max as int, radius);
    lemma_close_implies_adj(ps[i].y as int, ps[j].y as int, prm.y_max as int, radius);
    lemma_dim_divisible(prm.x_max as int, radius);
    lemma_dim_divisible(prm.y_max as int, radius);
    lemma_bin_range(ps[i].x as int, prm.x_max as int, radius);
    lemma_bin_range(ps[j].x as int, prm.x_max as int, radius);
    lemma_bin_range(ps[i].y as int, prm.y_max as int, radius);
    lemma_bin_range(ps[j].y as int, prm.y_max as int, radius);
    lemma_circ_adj_sym(col_of(ps, prm, i), col_of(ps, prm, j), cols_spec(prm));
    lemma_circ_adj_sym(row_of(ps, prm, i), row_of(ps, prm, j), rows_spec(prm));
}

/// Interacting partners of `k` with a smaller index.
pub open spec fn under_cnt(ps: Seq<Particle>, prm: Parameters, k: int) -> int {
    cnt(|m: int| m < k && sees_pred(ps, prm, k, m), ps.len() as int)
}

/// Interacting partners of `k` with a larger index.
pub open spec fn over_cnt(ps: Seq<Particle>, prm: Parameters, k: int) -> int {
    cnt(|m: int| k < m && sees_pred(ps, prm, k, m), ps.len() as int)
}

/// Total neighbor increments over the first `j` particles of one
/// analysis pass.
pub open spec fn sum_n(ps: Seq<Particle>, prm: Parameters, j: int) -> int
    decreases j,
{
    if j <= 0 {
        0
    } else {
        sum_n(ps, prm, j - 1) + n_cnt(ps, prm, j - 1)
    }
}

/// Number of interacting index-ordered pairs `(i, j)` with `i < j` and
/// `i < jmax`: each such pair is evaluated exactly once.
pub open spec fn pairs_cnt(ps: Seq<Particle>, prm: Parameters, j: int) -> int
    decreases j,
{
    if j <= 0 {
        0
    } else {
        pairs_cnt(ps, prm, j - 1) + over_cnt(ps, prm, j - 1)
    }
}

spec fn under_sum(ps: Seq<Particle>, prm: Parameters, j: int) -> int
    decreases j,
{
    if j <= 0 {
        0
    } else {
        under_sum(ps, prm, j - 1) + under_cnt(ps, prm, j - 1)
    }
}

spec fn part_sum(ps: Seq<Particle>, prm: Parameters, kmax: int, j: int) -> int
    decreases j,
{
    if j <= 0 {
        0
    } else {
        part_sum(ps, prm, kmax, j - 1)
            + cnt(|m: int| j - 1 < m && m < kmax && sees_pred(ps, prm, j - 1, m),
                ps.len() as int)
    }
}

/// The grid interaction test is symmetric in its two particles.
pub proof fn lemma_sees_sym(ps: Seq<Particle>, prm: Parameters, k: int, m: int)
    requires
        prm.valid_spec(),
        store_ok_spec(ps, prm),
        0 <= k < ps.len(),
        0 <= m < ps.len(),
    ensures
        sees_pred(ps, prm, k, m) == sees_pred(ps, prm, m, k),
{
    assert(ps[k].in_domain(prm));
    assert(ps[m].in_domain(prm));
    crate::grid::lemma_cell_in_range(ps[k].x as int, prm.x_max as int, prm.radius as int);
    crate::grid::lemma_cell_in_range(ps[k].y as int, prm.y_max as int, prm.radius as int);
    crate::grid::lemma_cell_in_range(ps[m].x as int, prm.x_max as int, prm.radius as int);
    crate::grid::lemma_cell_in_range(ps[m].y as int, prm.y_max as int, prm.radius as int);
    lemma_circ_adj_sym(row_of(ps, prm, k), row_of(ps, prm, m), rows_spec(prm));
    lemma_circ_adj_sym(col_of(ps, prm, k), col_of(ps, prm, m), cols_spec(prm));
}

/// One particle's neighbor total splits into partners below and above
/// its own index.
proof fn lemma_n_split(ps: Seq<Particle>, prm: Parameters, k: int)
    requires
        0 <= k < ps.len(),
    ensures
        n_cnt(ps, prm, k) == under_cnt(ps, prm, k) + over_cnt(ps, prm, k),
{
    let ni = ps.len() as int;
    let h = (|m: int| sees_pred(ps, prm, k, m));
    let f = (|m: int| m < k && sees_pred(ps, prm, k, m));
    let g = (|m: int| k < m && sees_pred(ps, prm, k, m));
    crate::count::lemma_cnt_disjoint(h, f, g, ni);
}

/// Raising the partner ceiling by one adds, for each earlier particle,
/// exactly its test against the new partner.
proof fn lemma_part_step(ps: Seq<Particle>, prm: Parameters, kmax: int, j: int)
    requires
        0 <= j <= kmax < ps.len(),
    ensures
        part_sum(ps, prm, kmax + 1, j)
            == part_sum(ps, prm, kmax, j) + cnt(|k2: int| sees_pred(ps, prm, k2, kmax), j),
    decreases j,
{
    let ni = ps.len() as int;
    if j > 0 {
        lemma_part_step(ps, prm, kmax, j - 1);
        let fo = (|m: int| j - 1 < m && m < kmax && sees_pred(ps, prm, j - 1, m));
        let fn1 = (|m: int| j - 1 < m && m < kmax + 1 && sees_pred(ps, prm, j - 1, m));
        if sees_pred(ps, prm, j - 1, kmax) {
            crate::count::lemma_cnt_point(fo, fn1, kmax, ni);
        } else {
            lemma_cnt_ext(fo, fn1, ni);
        }
        assert(cnt(|k2: int| sees_pred(ps, prm, k2, kmax), j)
            == cnt(|k2: int| sees_pred(ps, prm, k2, kmax), j - 1)
                + if sees_pred(ps, prm, j - 1, kmax) { 1int } else { 0int });
    }
}

/// Counting each pair from its smaller end equals counting it from its
/// larger end.
proof fn lemma_under_eq(ps: Seq<Particle>, prm: Parameters, kk: int)
    requires
        prm.valid_spec(),
        store_ok_spec(ps, prm),
        0 <= kk <= ps.len(),
    ensures
        under_sum(ps, prm, kk) == part_sum(ps, prm, kk, kk),
    decreases kk,
{
    let ni = ps.len() as int;
    if kk > 0 {
        lemma_under_eq(ps, prm, kk - 1);
        // the new particle's own term in part_sum(kk, kk) is empty
        let fe = (|m: int| kk - 1 < m && m < kk && sees_pred(ps, prm, kk - 1, m));
        crate::count::lemma_cnt_restrict(fe, ni, 0);
        lemma_part_step(ps, prm, kk - 1, kk - 1);
        // under_cnt(kk - 1) counted from the partners' side
        let fu = (|m: int| m < kk - 1 && sees_pred(ps, prm, kk - 1, m));
        crate::count::lemma_cnt_restrict(fu, ni, kk - 1);
        let fv = (|m: int| sees_pred(ps, prm, kk - 1, m));
        assert forall|m: int| 0 <= m < kk - 1 implies #[trigger] fu(m) == fv(m) by {}
        lemma_cnt_ext(fu, fv, kk - 1);
        let fw = (|m: int| sees_pred(ps, prm, m, kk - 1));
        assert forall|m: int| 0 <= m < kk - 1 implies #[trigger] fv(m) == fw(m) by {
            lemma_sees_sym(ps, prm, kk - 1, m);
        }
        lemma_cnt_ext(fv, fw, kk - 1);
    }
}

/// For partners capped at the store size the partial pair count is the
/// full pair count.
proof fn lemma_part_full(ps: Seq<Particle>, prm: Parameters, j: int)
    requires
        0 <= j <= ps.len(),
    ensures
        part_sum(ps, prm, ps.len() as int, j) == pairs_cnt(ps, prm, j),
    decreases j,
{
    let ni = ps.len() as int;
    if j > 0 {
        lemma_part_full(ps, prm, j - 1);
        let fp = (|m: int| j - 1 < m && m < ni && sees_pred(ps, prm, j - 1, m));
        let fq = (|m: int| j - 1 < m && sees_pred(ps, prm, j - 1, m));
        assert forall|m: int| 0 <= m < ni implies #[trigger] fp(m) == fq(m) by {}
        lemma_cnt_ext(fp, fq, ni);
    }
}

proof fn lemma_sum_split(ps: Seq<Particle>, prm: Parameters, j: int)
    requires
        0 <= j <= ps.len(),
    ensures
        sum_n(ps, prm, j) == under_sum(ps, prm, j) + pairs_cnt(ps, prm, j),
    decreases j,
{
    if j > 0 {
        lemma_sum_split(ps, prm, j - 1);
        lemma_n_split(ps, prm, j - 1);
    }
}

/// Symmetry of one analysis pass: every interacting index-ordered pair
/// is evaluated once and applies exactly one increment to each of its
/// two particles, so the total of all neighbor counters across the
/// store equals twice the number of interacting pairs.
pub proof fn lemma_neighbor_symmetry(ps: Seq<Particle>, prm: Parameters)
    requires
        prm.valid_spec(),
        store_ok_spec(ps, prm),
    ensures
        sum_n(ps, prm, ps.len() as int) == 2 * pairs_cnt(ps, prm, ps.len() as int),
{
    let ni = ps.len() as int;
    lemma_sum_split(ps, prm, ni);
    lemma_under_eq(ps, prm, ni);
    lemma_part_full(ps, prm, ni);
}

/// Total of the `n` counters over the first `j` particles of a store.
pub open spec fn store_n_total(ps: Seq<Particle>, j: int) -> int
    decreases j,
{
    if j <= 0 {
        0
    } else {
        store_n_total(ps, j - 1) + ps[j - 1].n as int
    }
}

proof fn lemma_analyzed_n_total(ps: Seq<Particle>, prm: Parameters, j: int)
    requires
        prm.valid_spec(),
        store_ok_spec(ps, prm),
        0 <= j <= ps.len(),
    ensures
        store_n_total(crate::analyze::analyzed_spec(ps, prm), j) == sum_n(ps, prm, j),
    decreases j,
{
    if j > 0 {
        lemma_analyzed_n_total(ps, prm, j - 1);
        crate::analyze::lemma_counts_sum(ps, prm, j - 1);
    }
}

/// Symmetry, stated on the analyzed store itself: after one analysis
/// pass, the total of all `n` counters equals twice the number of
/// interacting pairs.
pub proof fn lemma_store_symmetry(ps: Seq<Particle>, prm: Parameters)
    requires
        prm.valid_spec(),
        store_ok_spec(ps, prm),
    ensures
        store_n_total(crate::analyze::analyzed_spec(ps, prm), ps.len() as int)
            == 2 * pairs_cnt(ps, prm, ps.len() as int),
{
    lemma_analyzed_n_total(ps, prm, ps.len() as int);
    lemma_neighbor_symmetry(ps, prm);
}

} // verus!
