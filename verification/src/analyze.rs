//! The neighbor analyzer: for every particle, how many neighbors within
//! the interaction radius lie to its left and to its right, judged in its
//! own reference frame.
//!
//! A pair interacts when the wrap-aware squared distance is strictly
//! below the squared radius. For the pair `(i, j)` with `i < j` and
//! bearing `theta` from `i` to `j`: particle `i` counts `j` on its right
//! exactly when `theta > phi_i`, and particle `j` counts `i` on its right
//! exactly when `theta < phi_j`; ties go to the left on both sides. This
//! asymmetry is deliberate and is preserved exactly.
//!
//! The grid-based scan looks only at the eight bins adjacent to a
//! particle's own bin (wrapping at the edges) and at that bin itself, so
//! its counts are stated over bin-adjacent pairs. Each particle gathers
//! its own counters from its nine bins, so an unordered pair is examined
//! once from each of its two ends and contributes exactly one increment
//! to each end, just as a pair-at-a-time pass would apply it to both
//! particles. The laws module proves that
//! under bin sizes that divide the domain evenly this equals the
//! brute-force all-pairs count.

use vstd::prelude::*;
use crate::soup::{Particle, Particles, Parameters, store_ok_spec};
use crate::torus::{wrap2, wrap2_spec};
use crate::trig::{atan2_fp, atan2_spec};
use crate::grid::{
    Grid, grid_wf, rows_spec, cols_spec, row_of, col_of, bucket_of, dim, build_grid,
    lemma_bucket_members, lemma_cell_in_range,
};
use crate::count::{
    cnt, cnt_seq, has_int, lemma_cnt_bounds, lemma_cnt_ext, lemma_cnt_split,
    lemma_cnt_disjoint, lemma_cnt_exclude, lemma_cnt_seq_sorted, lemma_cnt_seq_push,
    lemma_cnt_seq_bounds, lemma_cnt_restrict,
};

verus! {

/// Shortest signed x-displacement from particle `i` to particle `j`.
pub open spec fn dx_spec(ps: Seq<Particle>, prm: Parameters, i: int, j: int) -> int {
    wrap2_spec(ps[j].x as int - ps[i].x as int, prm.x_max as int)
}

/// Shortest signed y-displacement from particle `i` to particle `j`.
pub open spec fn dy_spec(ps: Seq<Particle>, prm: Parameters, i: int, j: int) -> int {
    wrap2_spec(ps[j].y as int - ps[i].y as int, prm.y_max as int)
}

/// The pair `(i, j)` lies strictly within the interaction radius, by
/// wrap-aware distance.
pub open spec fn pair_close(ps: Seq<Particle>, prm: Parameters, i: int, j: int) -> bool {
    let dx = dx_spec(ps, prm, i, j);
    let dy = dy_spec(ps, prm, i, j);
    dx * dx + dy * dy < (prm.radius as int) * (prm.radius as int)
}

/// `k` and `m` are neighbors; stated over the index-ordered pair, so it
/// is symmetric by construction.
pub open spec fn nbr_spec(ps: Seq<Particle>, prm: Parameters, k: int, m: int) -> bool {
    if k <= m {
        pair_close(ps, prm, k, m)
    } else {
        pair_close(ps, prm, m, k)
    }
}

/// Bearing angle from particle `i` to particle `j`.
pub open spec fn theta_spec(ps: Seq<Particle>, prm: Parameters, i: int, j: int) -> int {
    atan2_spec(dy_spec(ps, prm, i, j), dx_spec(ps, prm, i, j))
}

/// Particle `k` sees particle `m` on its right: the bearing of the
/// index-ordered pair against `k`'s own heading, with the comparison
/// direction depending on which end of the pair `k` is.
pub open spec fn sees_right_spec(ps: Seq<Particle>, prm: Parameters, k: int, m: int) -> bool {
    if k < m {
        theta_spec(ps, prm, k, m) > ps[k].phi as int
    } else {
        theta_spec(ps, prm, m, k) < ps[k].phi as int
    }
}

/// `m` is counted by the all-pairs scan for particle `k`.
pub open spec fn brute_pred(ps: Seq<Particle>, prm: Parameters, k: int, m: int) -> bool {
    0 <= m < ps.len() && m != k && nbr_spec(ps, prm, k, m)
}

/// Brute-force right count of particle `k`.
pub open spec fn rb_cnt(ps: Seq<Particle>, prm: Parameters, k: int) -> int {
    cnt(|m: int| brute_pred(ps, prm, k, m) && sees_right_spec(ps, prm, k, m), ps.len() as int)
}

/// Brute-force left count of particle `k`.
pub open spec fn lb_cnt(ps: Seq<Particle>, prm: Parameters, k: int) -> int {
    cnt(|m: int| brute_pred(ps, prm, k, m) && !sees_right_spec(ps, prm, k, m), ps.len() as int)
}

/// Brute-force neighbor total of particle `k`.
pub open spec fn nb_cnt(ps: Seq<Particle>, prm: Parameters, k: int) -> int {
    cnt(|m: int| brute_pred(ps, prm, k, m), ps.len() as int)
}

/// Bin index `b` equals `a` or one of its two circular neighbors modulo
/// `m`.
pub open spec fn circ_adj(a: int, b: int, m: int) -> bool {
    b == a || b == (a + 1) % m || b == (a + m - 1) % m
}

/// `m` is counted by the grid scan for particle `k`: the all-pairs test
/// restricted to the nine bins around `k`'s own bin.
pub open spec fn sees_pred(ps: Seq<Particle>, prm: Parameters, k: int, m: int) -> bool {
    &&& brute_pred(ps, prm, k, m)
    &&& circ_adj(row_of(ps, prm, k), row_of(ps, prm, m), rows_spec(prm))
    &&& circ_adj(col_of(ps, prm, k), col_of(ps, prm, m), cols_spec(prm))
}

/// Grid-scan right count of particle `k`.
pub open spec fn r_cnt(ps: Seq<Particle>, prm: Parameters, k: int) -> int {
    cnt(|m: int| sees_pred(ps, prm, k, m) && sees_right_spec(ps, prm, k, m), ps.len() as int)
}

/// Grid-scan left count of particle `k`.
pub open spec fn l_cnt(ps: Seq<Particle>, prm: Parameters, k: int) -> int {
    cnt(|m: int| sees_pred(ps, prm, k, m) && !sees_right_spec(ps, prm, k, m), ps.len() as int)
}

/// Grid-scan neighbor total of particle `k`.
pub open spec fn n_cnt(ps: Seq<Particle>, prm: Parameters, k: int) -> int {
    cnt(|m: int| sees_pred(ps, prm, k, m), ps.len() as int)
}

/// `v` occurs among the first `upto` entries of `s`.
pub open spec fn in_pre(s: Seq<usize>, upto: int, v: int) -> bool {
    exists|i: int| 0 <= i < upto && #[trigger] s[i] as int == v
}

/// The bins already fully scanned when the bin scan stands at row-list
/// index `a` and column-list index `b`: the whole product of the first
/// `a` rows with every column, plus row `rl[a]` with the first `b`
/// columns.
pub open spec fn covered(
    rl: Seq<usize>, cl: Seq<usize>, a: int, b: int, r0: int, c0: int,
) -> bool {
    ||| (in_pre(rl, a, r0) && in_pre(cl, cl.len() as int, c0))
    ||| (0 <= a < rl.len() && rl[a] as int == r0 && in_pre(cl, b, c0))
}

/// The counting predicate of the right counter of particle `k`.
pub open spec fn pair_r(ps: Seq<Particle>, prm: Parameters, k: int) -> spec_fn(int) -> bool {
    |m: int| brute_pred(ps, prm, k, m) && sees_right_spec(ps, prm, k, m)
}

/// The counting predicate of the left counter of particle `k`.
pub open spec fn pair_l(ps: Seq<Particle>, prm: Parameters, k: int) -> spec_fn(int) -> bool {
    |m: int| brute_pred(ps, prm, k, m) && !sees_right_spec(ps, prm, k, m)
}

/// The predicate of membership in bin `(r0, c0)`.
pub open spec fn cellq(ps: Seq<Particle>, prm: Parameters, r0: int, c0: int)
    -> spec_fn(int) -> bool {
    |m: int| 0 <= m < ps.len() && row_of(ps, prm, m) == r0 && col_of(ps, prm, m) == c0
}

/// The right-counting predicate restricted to the bins covered so far.
pub open spec fn scan_r(
    ps: Seq<Particle>, prm: Parameters, rl: Seq<usize>, cl: Seq<usize>, a: int, b: int, k: int,
) -> spec_fn(int) -> bool {
    |m: int| pair_r(ps, prm, k)(m)
        && covered(rl, cl, a, b, row_of(ps, prm, m), col_of(ps, prm, m))
}

/// The left-counting predicate restricted to the bins covered so far.
pub open spec fn scan_l(
    ps: Seq<Particle>, prm: Parameters, rl: Seq<usize>, cl: Seq<usize>, a: int, b: int, k: int,
) -> spec_fn(int) -> bool {
    |m: int| pair_l(ps, prm, k)(m)
        && covered(rl, cl, a, b, row_of(ps, prm, m), col_of(ps, prm, m))
}

/// One more entry of an enumeration covers one more value.
proof fn lemma_in_pre_unroll(s: Seq<usize>, upto: int, v: int)
    requires
        0 <= upto < s.len(),
    ensures
        in_pre(s, upto + 1, v) == (in_pre(s, upto, v) || s[upto] as int == v),
{
    if in_pre(s, upto + 1, v) {
        let i = choose|i: int| 0 <= i < upto + 1 && #[trigger] s[i] as int == v;
        if i < upto {
            assert(in_pre(s, upto, v));
        }
    }
    if in_pre(s, upto, v) {
        let i = choose|i: int| 0 <= i < upto && #[trigger] s[i] as int == v;
        assert(0 <= i < upto + 1 && s[i] as int == v);
    }
    if s[upto] as int == v {
        assert(0 <= upto < upto + 1 && s[upto] as int == v);
    }
}

/// Evaluate the index-ordered pair `(i, j)`: whether it is within the
/// radius, and if so, its bearing angle from `i` to `j`.
fn eval_pair(ps: &Particles, prm: &Parameters, i: usize, j: usize) -> (res: (bool, i64))
    requires
        prm.valid_spec(),
        store_ok_spec(ps@, *prm),
        i < ps@.len(),
        j < ps@.len(),
        i < j,
    ensures
        res.0 == pair_close(ps@, *prm, i as int, j as int),
        res.0 ==> res.1 == theta_spec(ps@, *prm, i as int, j as int),
{
    let pi = ps[i];
    let pj = ps[j];
    proof {
        assert(ps@[i as int].in_domain(*prm));
        assert(ps@[j as int].in_domain(*prm));
    }
    let dxv: i64 = wrap2(pj.x - pi.x, prm.x_max);
    let dyv: i64 = wrap2(pj.y - pi.y, prm.y_max);
    proof {
        assert(0 <= dxv * dxv <= 1_000_000_000_000_000_000
            && 0 <= dyv * dyv <= 1_000_000_000_000_000_000) by (nonlinear_arith)
            requires
                -1_000_000_000 <= dxv as int <= 1_000_000_000,
                -1_000_000_000 <= dyv as int <= 1_000_000_000;
        assert(0 < prm.radius as int * (prm.radius as int) <= 4_000_000_000_000_000_000)
            by (nonlinear_arith)
            requires 0 < prm.radius as int <= 2_000_000_000;
    }
    let ds2: i64 = dxv * dxv + dyv * dyv;
    let r2: i64 = prm.radius * prm.radius;
    if ds2 < r2 {
        let th: i64 = atan2_fp(dyv, dxv);
        (true, th)
    } else {
        (false, 0)
    }
}

/// Count the neighbors of particle `k` by scanning every other particle:
/// the brute-force all-pairs reference.
pub fn count_one_brute(ps: &Particles, prm: &Parameters, k: usize) -> (rl: (i32, i32))
    requires
        prm.valid_spec(),
        store_ok_spec(ps@, *prm),
        k < ps@.len(),
    ensures
        rl.0 as int == rb_cnt(ps@, *prm, k as int),
        rl.1 as int == lb_cnt(ps@, *prm, k as int),
{
    let n = ps.len();
    let mut rc: i32 = 0;
    let mut lc: i32 = 0;
    let pk = ps[k];
    for m in 0..n
        invariant
            prm.valid_spec(),
            store_ok_spec(ps@, *prm),
            k < n,
            n == ps@.len(),
            pk == ps@[k as int],
            rc as int ==
                cnt(|mm: int| brute_pred(ps@, *prm, k as int, mm)
                    && sees_right_spec(ps@, *prm, k as int, mm), m as int),
            lc as int ==
                cnt(|mm: int| brute_pred(ps@, *prm, k as int, mm)
                    && !sees_right_spec(ps@, *prm, k as int, mm), m as int),
            rc as int + lc as int <= m,
    {
        proof {
            lemma_cnt_bounds(|mm: int| brute_pred(ps@, *prm, k as int, mm)
                && sees_right_spec(ps@, *prm, k as int, mm), m as int);
            lemma_cnt_bounds(|mm: int| brute_pred(ps@, *prm, k as int, mm)
                && !sees_right_spec(ps@, *prm, k as int, mm), m as int);
        }
        if m != k {
            let (i, j) = if k < m { (k, m) } else { (m, k) };
            let (close, th) = eval_pair(ps, prm, i, j);
            if close {
                if k < m {
                    if th > pk.phi {
                        rc = rc + 1;
                    } else {
                        lc = lc + 1;
                    }
                } else {
                    if th < pk.phi {
                        rc = rc + 1;
                    } else {
                        lc = lc + 1;
                    }
                }
            }
        }
    }
    (rc, lc)
}

/// The bin indices adjacent to `center` on a circular axis of `size`
/// bins: `center` itself and its two circular neighbors, without
/// duplicates.
fn adjacent_list(center: usize, size: usize) -> (list: Vec<usize>)
    requires
        1 <= size,
        center < size,
    ensures
        forall|i: int| 0 <= i < list@.len() ==> #[trigger] list@[i] < size,
        forall|i: int, j: int| 0 <= i < j < list@.len()
            ==> #[trigger] list@[i] != #[trigger] list@[j],
        forall|v: int| #[trigger] in_pre(list@, list@.len() as int, v)
            == circ_adj(center as int, v, size as int),
{
    let sub: usize = if center == 0 { size - 1 } else { center - 1 };
    let sup: usize = if center == size - 1 { 0 } else { center + 1 };
    proof {
        assert(sup as int == (center as int + 1) % (size as int)) by {
            if center == size - 1 {
                vstd::arithmetic::div_mod::lemma_mod_self_0(size as int);
            } else {
                vstd::arithmetic::div_mod::lemma_small_mod((center + 1) as nat, size as nat);
            }
        }
        assert(sub as int == (center as int + size as int - 1) % (size as int)) by {
            if center == 0 {
                vstd::arithmetic::div_mod::lemma_small_mod((size - 1) as nat, size as nat);
            } else {
                vstd::arithmetic::div_mod::lemma_mod_add_multiples_vanish(
                    center as int - 1, size as int);
                vstd::arithmetic::div_mod::lemma_small_mod((center - 1) as nat, size as nat);
            }
        }
    }
    let mut list: Vec<usize> = Vec::new();
    list.push(center);
    if sub != center {
        list.push(sub);
    }
    if sup != center && sup != sub {
        list.push(sup);
    }
    proof {
        assert(forall|i: int| 0 <= i < list@.len()
            ==> #[trigger] list@[i] == center || list@[i] == sub || list@[i] == sup);
        assert(in_pre(list@, list@.len() as int, center as int)) by {
            assert(list@[0] == center);
        }
        assert(in_pre(list@, list@.len() as int, sub as int)) by {
            if sub == center {
                assert(list@[0] as int == sub as int);
            } else {
                assert(list@[1] as int == sub as int);
            }
        }
        assert(in_pre(list@, list@.len() as int, sup as int)) by {
            if sup == center {
                assert(list@[0] as int == sup as int);
            } else if sub != center && sup == sub {
                assert(list@[1] as int == sup as int);
            } else if sub == center {
                assert(list@[1] as int == sup as int);
            } else {
                assert(list@[2] as int == sup as int);
            }
        }
        assert forall|v: int| #[trigger] in_pre(list@, list@.len() as int, v)
            == circ_adj(center as int, v, size as int) by {
            if in_pre(list@, list@.len() as int, v) {
                let i = choose|i: int| 0 <= i < list@.len() && #[trigger] list@[i] as int == v;
                assert(list@[i] == center || list@[i] == sub || list@[i] == sup);
            }
        }
    }
    list
}

/// Finishing one bucket of the grid scan extends the covered region by
/// exactly that bucket's contribution.
proof fn lemma_scan_merge(
    ps: Seq<Particle>, prm: Parameters, g: Grid, rl: Seq<usize>, cl: Seq<usize>,
    a: int, b: int, k: int,
)
    requires
        prm.valid_spec(),
        store_ok_spec(ps, prm),
        grid_wf(g, ps, prm),
        0 <= k < ps.len(),
        0 <= a < rl.len(),
        0 <= b < cl.len(),
        forall|i: int, j: int| 0 <= i < j < rl.len() ==> #[trigger] rl[i] != #[trigger] rl[j],
        forall|i: int, j: int| 0 <= i < j < cl.len() ==> #[trigger] cl[i] != #[trigger] cl[j],
        (rl[a] as int) < rows_spec(prm),
        (cl[b] as int) < cols_spec(prm),
    ensures
        cnt(scan_r(ps, prm, rl, cl, a, b + 1, k), ps.len() as int)
            == cnt(scan_r(ps, prm, rl, cl, a, b, k), ps.len() as int)
                + cnt_seq(bucket_of(g, rl[a] as int, cl[b] as int), pair_r(ps, prm, k)),
        cnt(scan_l(ps, prm, rl, cl, a, b + 1, k), ps.len() as int)
            == cnt(scan_l(ps, prm, rl, cl, a, b, k), ps.len() as int)
                + cnt_seq(bucket_of(g, rl[a] as int, cl[b] as int), pair_l(ps, prm, k)),
{
    let ni = ps.len() as int;
    let rri = rl[a] as int;
    let cci = cl[b] as int;
    let bucket = bucket_of(g, rri, cci);
    let fr = pair_r(ps, prm, k);
    let fl = pair_l(ps, prm, k);
    let q = cellq(ps, prm, rri, cci);
    assert(forall|tt: int| 0 <= tt < bucket.len()
        ==> ((#[trigger] bucket[tt]) as int) < ni);
    lemma_bucket_members(g, ps, prm, rri, cci);
    assert forall|m: int| 0 <= m < ni implies #[trigger] q(m) == has_int(bucket, m) by {
        assert(has_int(bucket_of(g, rri, cci), m)
            <==> (0 <= m < ps.len() && row_of(ps, prm, m) == rri
                && col_of(ps, prm, m) == cci));
    }
    lemma_cnt_seq_sorted(bucket, fr, q, ni);
    lemma_cnt_seq_sorted(bucket, fl, q, ni);
    let hr = scan_r(ps, prm, rl, cl, a, b + 1, k);
    let fr0 = scan_r(ps, prm, rl, cl, a, b, k);
    let gr = (|m: int| q(m) && fr(m));
    assert forall|m: int| 0 <= m < ni implies #[trigger] hr(m) == (fr0(m) || gr(m)) by {
        lemma_in_pre_unroll(cl, b, col_of(ps, prm, m));
    }
    assert forall|m: int| 0 <= m < ni
        implies !(#[trigger] fr0(m) && #[trigger] gr(m)) by {
        if fr0(m) && gr(m) {
            if in_pre(rl, a, rri) {
                let i0 = choose|i0: int| 0 <= i0 < a && #[trigger] rl[i0] as int == rri;
                assert(rl[i0] != rl[a]);
            } else {
                let i0 = choose|i0: int| 0 <= i0 < b && #[trigger] cl[i0] as int == cci;
                assert(cl[i0] != cl[b]);
            }
        }
    }
    lemma_cnt_disjoint(hr, fr0, gr, ni);
    let hl = scan_l(ps, prm, rl, cl, a, b + 1, k);
    let fl0 = scan_l(ps, prm, rl, cl, a, b, k);
    let gl = (|m: int| q(m) && fl(m));
    assert forall|m: int| 0 <= m < ni implies #[trigger] hl(m) == (fl0(m) || gl(m)) by {
        lemma_in_pre_unroll(cl, b, col_of(ps, prm, m));
    }
    assert forall|m: int| 0 <= m < ni
        implies !(#[trigger] fl0(m) && #[trigger] gl(m)) by {
        if fl0(m) && gl(m) {
            if in_pre(rl, a, rri) {
                let i0 = choose|i0: int| 0 <= i0 < a && #[trigger] rl[i0] as int == rri;
                assert(rl[i0] != rl[a]);
            } else {
                let i0 = choose|i0: int| 0 <= i0 < b && #[trigger] cl[i0] as int == cci;
                assert(cl[i0] != cl[b]);
            }
        }
    }
    lemma_cnt_disjoint(hl, fl0, gl, ni);
}

/// Finishing a whole row of buckets turns the covered region into the
/// product of one more row prefix with every column.
proof fn lemma_scan_row_step(
    ps: Seq<Particle>, prm: Parameters, rl: Seq<usize>, cl: Seq<usize>, a: int, k: int,
)
    requires
        0 <= a < rl.len(),
    ensures
        cnt(scan_r(ps, prm, rl, cl, a, cl.len() as int, k), ps.len() as int)
            == cnt(scan_r(ps, prm, rl, cl, a + 1, 0, k), ps.len() as int),
        cnt(scan_l(ps, prm, rl, cl, a, cl.len() as int, k), ps.len() as int)
            == cnt(scan_l(ps, prm, rl, cl, a + 1, 0, k), ps.len() as int),
{
    let ni = ps.len() as int;
    let fr1 = scan_r(ps, prm, rl, cl, a, cl.len() as int, k);
    let fr2 = scan_r(ps, prm, rl, cl, a + 1, 0, k);
    assert forall|m: int| 0 <= m < ni implies #[trigger] fr1(m) == #[trigger] fr2(m) by {
        lemma_in_pre_unroll(rl, a, row_of(ps, prm, m));
    }
    lemma_cnt_ext(fr1, fr2, ni);
    let fl1 = scan_l(ps, prm, rl, cl, a, cl.len() as int, k);
    let fl2 = scan_l(ps, prm, rl, cl, a + 1, 0, k);
    assert forall|m: int| 0 <= m < ni implies #[trigger] fl1(m) == #[trigger] fl2(m) by {
        lemma_in_pre_unroll(rl, a, row_of(ps, prm, m));
    }
    lemma_cnt_ext(fl1, fl2, ni);
}

/// When every row and every column candidate has been covered, the scan
/// counts are exactly the grid counts, which are at most the store size
/// less one.
proof fn lemma_scan_total(
    ps: Seq<Particle>, prm: Parameters, rl: Seq<usize>, cl: Seq<usize>, k: int,
)
    requires
        prm.valid_spec(),
        store_ok_spec(ps, prm),
        0 <= k < ps.len(),
        forall|v: int| #[trigger] in_pre(rl, rl.len() as int, v)
            == circ_adj(row_of(ps, prm, k), v, rows_spec(prm)),
        forall|v: int| #[trigger] in_pre(cl, cl.len() as int, v)
            == circ_adj(col_of(ps, prm, k), v, cols_spec(prm)),
    ensures
        cnt(scan_r(ps, prm, rl, cl, rl.len() as int, 0, k), ps.len() as int)
            == r_cnt(ps, prm, k),
        cnt(scan_l(ps, prm, rl, cl, rl.len() as int, 0, k), ps.len() as int)
            == l_cnt(ps, prm, k),
        0 <= r_cnt(ps, prm, k) <= ps.len() - 1,
        0 <= l_cnt(ps, prm, k) <= ps.len() - 1,
{
    let ni = ps.len() as int;
    let fr = scan_r(ps, prm, rl, cl, rl.len() as int, 0, k);
    let tr = (|m: int| sees_pred(ps, prm, k, m) && sees_right_spec(ps, prm, k, m));
    assert forall|m: int| 0 <= m < ni implies #[trigger] fr(m) == #[trigger] tr(m) by {}
    lemma_cnt_ext(fr, tr, ni);
    let fl = scan_l(ps, prm, rl, cl, rl.len() as int, 0, k);
    let tl = (|m: int| sees_pred(ps, prm, k, m) && !sees_right_spec(ps, prm, k, m));
    assert forall|m: int| 0 <= m < ni implies #[trigger] fl(m) == #[trigger] tl(m) by {}
    lemma_cnt_ext(fl, tl, ni);
    lemma_cnt_bounds(tr, ni);
    lemma_cnt_bounds(tl, ni);
    lemma_cnt_exclude(tr, k, ni);
    lemma_cnt_exclude(tl, k, ni);
}

/// Count the neighbors of particle `k` by scanning only the nine grid
/// bins around its own, wrapping at the grid edges.
#[verifier::rlimit(60)]
pub fn count_one(ps: &Particles, g: &Grid, prm: &Parameters, k: usize) -> (rl: (i32, i32))
    requires
        prm.valid_spec(),
        store_ok_spec(ps@, *prm),
        grid_wf(*g, ps@, *prm),
        k < ps@.len(),
    ensures
        rl.0 as int == r_cnt(ps@, *prm, k as int),
        rl.1 as int == l_cnt(ps@, *prm, k as int),
{
    let n = ps.len();
    let ghost ki = k as int;
    let ghost ni = n as int;
    let pk = ps[k];
    proof {
        assert(ps@[ki].in_domain(*prm));
        lemma_cell_in_range(pk.y as int, prm.y_max as int, prm.radius as int);
        lemma_cell_in_range(pk.x as int, prm.x_max as int, prm.radius as int);
    }
    let rows: usize = dim(prm.y_max, prm.radius);
    let cols: usize = dim(prm.x_max, prm.radius);
    let rk: usize = ((pk.y as u64) / (prm.radius as u64)) as usize;
    let ck: usize = ((pk.x as u64) / (prm.radius as u64)) as usize;
    proof {
        assert(rk as int == row_of(ps@, *prm, ki));
        assert(ck as int == col_of(ps@, *prm, ki));
    }
    let rlist: Vec<usize> = adjacent_list(rk, rows);
    let clist: Vec<usize> = adjacent_list(ck, cols);
    let mut rc: i64 = 0;
    let mut lc: i64 = 0;
    proof {
        lemma_cnt_restrict(scan_r(ps@, *prm, rlist@, clist@, 0, 0, ki), ni, 0);
        lemma_cnt_restrict(scan_l(ps@, *prm, rlist@, clist@, 0, 0, ki), ni, 0);
    }
    for a in 0..rlist.len()
        invariant
            prm.valid_spec(),
            store_ok_spec(ps@, *prm),
            grid_wf(*g, ps@, *prm),
            k < n,
            ni == n as int,
            ni == ps@.len(),
            ki == k as int,
            pk == ps@[ki],
            rows as int == rows_spec(*prm),
            cols as int == cols_spec(*prm),
            forall|i: int| 0 <= i < rlist@.len() ==> #[trigger] rlist@[i] < rows,
            forall|i: int| 0 <= i < clist@.len() ==> #[trigger] clist@[i] < cols,
            forall|i: int, j: int| 0 <= i < j < rlist@.len()
                ==> #[trigger] rlist@[i] != #[trigger] rlist@[j],
            forall|i: int, j: int| 0 <= i < j < clist@.len()
                ==> #[trigger] clist@[i] != #[trigger] clist@[j],
            rc as int == cnt(scan_r(ps@, *prm, rlist@, clist@, a as int, 0, ki), ni),
            lc as int == cnt(scan_l(ps@, *prm, rlist@, clist@, a as int, 0, ki), ni),
    {
        let rr = rlist[a];
        for b in 0..clist.len()
            invariant
                prm.valid_spec(),
                store_ok_spec(ps@, *prm),
                grid_wf(*g, ps@, *prm),
                k < n,
                ni == n as int,
                ni == ps@.len(),
                ki == k as int,
                pk == ps@[ki],
                rows as int == rows_spec(*prm),
                cols as int == cols_spec(*prm),
                a < rlist@.len(),
                rr == rlist@[a as int],
                forall|i: int| 0 <= i < rlist@.len() ==> #[trigger] rlist@[i] < rows,
                forall|i: int| 0 <= i < clist@.len() ==> #[trigger] clist@[i] < cols,
                forall|i: int, j: int| 0 <= i < j < rlist@.len()
                    ==> #[trigger] rlist@[i] != #[trigger] rlist@[j],
                forall|i: int, j: int| 0 <= i < j < clist@.len()
                    ==> #[trigger] clist@[i] != #[trigger] clist@[j],
                rc as int == cnt(scan_r(ps@, *prm, rlist@, clist@, a as int, b as int, ki), ni),
                lc as int == cnt(scan_l(ps@, *prm, rlist@, clist@, a as int, b as int, ki), ni),
        {
            let cc = clist[b];
            let ghost rri = rr as int;
            let ghost cci = cc as int;
            proof {
                assert(g@.len() == rows_spec(*prm));
                assert(g@[rri]@.len() == cols_spec(*prm));
            }
            let bucket: &Vec<usize> = &g[rr][cc];
            proof {
                assert(bucket@ == bucket_of(*g, rri, cci));
                assert(forall|tt: int| 0 <= tt < bucket@.len()
                    ==> ((#[trigger] bucket@[tt]) as int) < ni) by {
                    assert(forall|tt: int| 0 <= tt < bucket_of(*g, rri, cci).len()
                        ==> ((#[trigger] bucket_of(*g, rri, cci)[tt]) as int) < ni);
                }
                crate::count::lemma_strict_inc_len(bucket@, ni);
                assert(bucket@.take(0) =~= Seq::<usize>::empty());
            }
            for t in 0..bucket.len()
                invariant
                    prm.valid_spec(),
                    store_ok_spec(ps@, *prm),
                    k < n,
                    ni == n as int,
                    ni == ps@.len(),
                    ki == k as int,
                    pk == ps@[ki],
                    bucket@ == bucket_of(*g, rri, cci),
                    bucket@.len() <= ni,
                    forall|tt: int| 0 <= tt < bucket@.len()
                        ==> ((#[trigger] bucket@[tt]) as int) < ni,
                    rc as int ==
                        cnt(scan_r(ps@, *prm, rlist@, clist@, a as int, b as int, ki), ni)
                        + cnt_seq(bucket@.take(t as int), pair_r(ps@, *prm, ki)),
                    lc as int ==
                        cnt(scan_l(ps@, *prm, rlist@, clist@, a as int, b as int, ki), ni)
                        + cnt_seq(bucket@.take(t as int), pair_l(ps@, *prm, ki)),
            {
                let m = bucket[t];
                proof {
                    lemma_cnt_bounds(
                        scan_r(ps@, *prm, rlist@, clist@, a as int, b as int, ki), ni);
                    lemma_cnt_bounds(
                        scan_l(ps@, *prm, rlist@, clist@, a as int, b as int, ki), ni);
                    lemma_cnt_seq_bounds(bucket@.take(t as int), pair_r(ps@, *prm, ki));
                    lemma_cnt_seq_bounds(bucket@.take(t as int), pair_l(ps@, *prm, ki));
                    assert(bucket@.take(t as int + 1)
                        =~= bucket@.take(t as int).push(bucket@[t as int]));
                    lemma_cnt_seq_push(bucket@.take(t as int), m, pair_r(ps@, *prm, ki));
                    lemma_cnt_seq_push(bucket@.take(t as int), m, pair_l(ps@, *prm, ki));
                }
                if m != k {
                    let (i, j) = if k < m { (k, m) } else { (m, k) };
                    let (close, th) = eval_pair(ps, prm, i, j);
                    proof {
                        assert(close == nbr_spec(ps@, *prm, ki, m as int));
                    }
                    if close {
                        if k < m {
                            if th > pk.phi {
                                rc = rc + 1;
                                proof {
                                    assert(pair_r(ps@, *prm, ki)(m as int));
                                    assert(!pair_l(ps@, *prm, ki)(m as int));
                                }
                            } else {
                                lc = lc + 1;
                                proof {
                                    assert(!pair_r(ps@, *prm, ki)(m as int));
                                    assert(pair_l(ps@, *prm, ki)(m as int));
                                }
                            }
                        } else {
                            if th < pk.phi {
                                rc = rc + 1;
                                proof {
                                    assert(pair_r(ps@, *prm, ki)(m as int));
                                    assert(!pair_l(ps@, *prm, ki)(m as int));
                                }
                            } else {
                                lc = lc + 1;
                                proof {
                                    assert(!pair_r(ps@, *prm, ki)(m as int));
                                    assert(pair_l(ps@, *prm, ki)(m as int));
                                }
                            }
                        }
                    } else {
                        proof {
                            assert(!pair_r(ps@, *prm, ki)(m as int));
                            assert(!pair_l(ps@, *prm, ki)(m as int));
                        }
                    }
                } else {
                    proof {
                        assert(!pair_r(ps@, *prm, ki)(m as int));
                        assert(!pair_l(ps@, *prm, ki)(m as int));
                    }
                }
            }
            proof {
                assert(bucket@.take(bucket@.len() as int) =~= bucket@);
                lemma_scan_merge(ps@, *prm, *g, rlist@, clist@, a as int, b as int, ki);
            }
        }
        proof {
            lemma_scan_row_step(ps@, *prm, rlist@, clist@, a as int, ki);
        }
    }
    proof {
        assert forall|v: int| #[trigger] in_pre(rlist@, rlist@.len() as int, v)
            == circ_adj(row_of(ps@, *prm, ki), v, rows_spec(*prm)) by {}
        assert forall|v: int| #[trigger] in_pre(clist@, clist@.len() as int, v)
            == circ_adj(col_of(ps@, *prm, ki), v, cols_spec(*prm)) by {}
        lemma_scan_total(ps@, *prm, rlist@, clist@, ki);
    }
    (rc as i32, lc as i32)
}

/// The grid counts of one particle split into right plus left, never
/// exceed the store size less one, and are never negative.
pub proof fn lemma_counts_sum(ps: Seq<Particle>, prm: Parameters, k: int)
    requires
        0 <= k < ps.len(),
    ensures
        n_cnt(ps, prm, k) == r_cnt(ps, prm, k) + l_cnt(ps, prm, k),
        0 <= r_cnt(ps, prm, k),
        0 <= l_cnt(ps, prm, k),
        n_cnt(ps, prm, k) <= ps.len() - 1,
{
    let ni = ps.len() as int;
    let f = (|m: int| sees_pred(ps, prm, k, m));
    let g = (|m: int| sees_right_spec(ps, prm, k, m));
    lemma_cnt_split(f, g, ni);
    let fr = (|m: int| sees_pred(ps, prm, k, m) && sees_right_spec(ps, prm, k, m));
    let fl = (|m: int| sees_pred(ps, prm, k, m) && !sees_right_spec(ps, prm, k, m));
    assert forall|m: int| 0 <= m < ni
        implies ((|m: int| f(m) && g(m))(m) == #[trigger] fr(m)) by {}
    lemma_cnt_ext(|m: int| f(m) && g(m), fr, ni);
    assert forall|m: int| 0 <= m < ni
        implies ((|m: int| f(m) && !g(m))(m) == #[trigger] fl(m)) by {}
    lemma_cnt_ext(|m: int| f(m) && !g(m), fl, ni);
    lemma_cnt_bounds(fr, ni);
    lemma_cnt_bounds(fl, ni);
    lemma_cnt_exclude(f, k, ni);
}

/// The store after neighbor analysis: positions and headings unchanged,
/// counters set to the grid counts.
pub open spec fn analyzed_spec(ps: Seq<Particle>, prm: Parameters) -> Seq<Particle> {
    Seq::new(ps.len(), |k: int| Particle {
        x: ps[k].x,
        y: ps[k].y,
        phi: ps[k].phi,
        r: r_cnt(ps, prm, k) as i32,
        l: l_cnt(ps, prm, k) as i32,
        n: (r_cnt(ps, prm, k) + l_cnt(ps, prm, k)) as i32,
    })
}

/// Run the grid-based neighbor analysis over the whole store: rebuild
/// the spatial index, count every particle's neighbors through it, and
/// write the counts back.
pub fn analyze(ps: &mut Particles, prm: &Parameters)
    requires
        prm.valid_spec(),
        store_ok_spec(old(ps)@, *prm),
    ensures
        final(ps)@ == analyzed_spec(old(ps)@, *prm),
        store_ok_spec(final(ps)@, *prm),
{
    let g = build_grid(ps, prm);
    let n = ps.len();
    let mut cs: Vec<(i32, i32)> = Vec::new();
    for k in 0..n
        invariant
            prm.valid_spec(),
            store_ok_spec(ps@, *prm),
            grid_wf(g, ps@, *prm),
            n == ps@.len(),
            ps@ == old(ps)@,
            cs@.len() == k,
            forall|i: int| 0 <= i < k
                ==> (#[trigger] cs@[i]).0 as int == r_cnt(ps@, *prm, i)
                    && cs@[i].1 as int == l_cnt(ps@, *prm, i),
    {
        let rl = count_one(ps, &g, prm, k);
        cs.push(rl);
    }
    for k in 0..n
        invariant
            n == cs@.len(),
            n == ps@.len(),
            n == old(ps)@.len(),
            forall|i: int| 0 <= i < n
                ==> (#[trigger] cs@[i]).0 as int == r_cnt(old(ps)@, *prm, i)
                    && cs@[i].1 as int == l_cnt(old(ps)@, *prm, i),
            forall|i: int| k <= i < n ==> #[trigger] ps@[i] == old(ps)@[i],
            forall|i: int| 0 <= i < k ==> #[trigger] ps@[i] == analyzed_spec(old(ps)@, *prm)[i],
            forall|i: int| 0 <= i < n ==> #[trigger] ps@[i].in_domain(*prm),
            n <= crate::soup::MAX_PARTICLES,
    {
        let p = ps[k];
        let rl = cs[k];
        proof {
            assert(p == ps@[k as int]);
            assert(ps@[k as int].in_domain(*prm));
            lemma_counts_sum(old(ps)@, *prm, k as int);
            assert(cs@[k as int].0 as int == r_cnt(old(ps)@, *prm, k as int));
            assert(cs@[k as int].1 as int == l_cnt(old(ps)@, *prm, k as int));
        }
        ps[k] = Particle { x: p.x, y: p.y, phi: p.phi, r: rl.0, l: rl.1, n: rl.0 + rl.1 };
        proof {
            assert(ps@[k as int].in_domain(*prm));
        }
    }
    proof {
        assert(ps@ =~= analyzed_spec(old(ps)@, *prm));
    }
}

/// The store after a brute-force all-pairs analysis.
pub open spec fn analyzed_brute_spec(ps: Seq<Particle>, prm: Parameters) -> Seq<Particle> {
    Seq::new(ps.len(), |k: int| Particle {
        x: ps[k].x,
        y: ps[k].y,
        phi: ps[k].phi,
        r: rb_cnt(ps, prm, k) as i32,
        l: lb_cnt(ps, prm, k) as i32,
        n: (rb_cnt(ps, prm, k) + lb_cnt(ps, prm, k)) as i32,
    })
}

/// The brute counts of one particle split into right plus left and stay
/// within the store size.
pub proof fn lemma_brute_counts_sum(ps: Seq<Particle>, prm: Parameters, k: int)
    requires
        0 <= k < ps.len(),
    ensures
        nb_cnt(ps, prm, k) == rb_cnt(ps, prm, k) + lb_cnt(ps, prm, k),
        0 <= rb_cnt(ps, prm, k),
        0 <= lb_cnt(ps, prm, k),
        nb_cnt(ps, prm, k) <= ps.len() - 1,
{
    let ni = ps.len() as int;
    let f = (|m: int| brute_pred(ps, prm, k, m));
    let g = (|m: int| sees_right_spec(ps, prm, k, m));
    lemma_cnt_split(f, g, ni);
    let fr = (|m: int| brute_pred(ps, prm, k, m) && sees_right_spec(ps, prm, k, m));
    let fl = (|m: int| brute_pred(ps, prm, k, m) && !sees_right_spec(ps, prm, k, m));
    assert forall|m: int| 0 <= m < ni
        implies ((|m: int| f(m) && g(m))(m) == #[trigger] fr(m)) by {}
    lemma_cnt_ext(|m: int| f(m) && g(m), fr, ni);
    assert forall|m: int| 0 <= m < ni
        implies ((|m: int| f(m) && !g(m))(m) == #[trigger] fl(m)) by {}
    lemma_cnt_ext(|m: int| f(m) && !g(m), fl, ni);
    lemma_cnt_bounds(fr, ni);
    lemma_cnt_bounds(fl, ni);
    lemma_cnt_exclude(f, k, ni);
}

/// Run the brute-force all-pairs neighbor analysis over the whole store.
pub fn analyze_brute(ps: &mut Particles, prm: &Parameters)
    requires
        prm.valid_spec(),
        store_ok_spec(old(ps)@, *prm),
    ensures
        final(ps)@ == analyzed_brute_spec(old(ps)@, *prm),
        store_ok_spec(final(ps)@, *prm),
{
    let n = ps.len();
    let mut cs: Vec<(i32, i32)> = Vec::new();
    for k in 0..n
        invariant
            prm.valid_spec(),
            store_ok_spec(ps@, *prm),
            n == ps@.len(),
            ps@ == old(ps)@,
            cs@.len() == k,
            forall|i: int| 0 <= i < k
                ==> (#[trigger] cs@[i]).0 as int == rb_cnt(ps@, *prm, i)
                    && cs@[i].1 as int == lb_cnt(ps@, *prm, i),
    {
        let rl = count_one_brute(ps, prm, k);
        cs.push(rl);
    }
    for k in 0..n
        invariant
            n == cs@.len(),
            n == ps@.len(),
            n == old(ps)@.len(),
            forall|i: int| 0 <= i < n
                ==> (#[trigger] cs@[i]).0 as int == rb_cnt(old(ps)@, *prm, i)
                    && cs@[i].1 as int == lb_cnt(old(ps)@, *prm, i),
            forall|i: int| k <= i < n ==> #[trigger] ps@[i] == old(ps)@[i],
            forall|i: int| 0 <= i < k
                ==> #[trigger] ps@[i] == analyzed_brute_spec(old(ps)@, *prm)[i],
            forall|i: int| 0 <= i < n ==> #[trigger] ps@[i].in_domain(*prm),
            n <= crate::soup::MAX_PARTICLES,
    {
        let p = ps[k];
        let rl = cs[k];
        proof {
            assert(p == ps@[k as int]);
            assert(ps@[k as int].in_domain(*prm));
            lemma_brute_counts_sum(old(ps)@, *prm, k as int);
            assert(cs@[k as int].0 as int == rb_cnt(old(ps)@, *prm, k as int));
            assert(cs@[k as int].1 as int == lb_cnt(old(ps)@, *prm, k as int));
        }
        ps[k] = Particle { x: p.x, y: p.y, phi: p.phi, r: rl.0, l: rl.1, n: rl.0 + rl.1 };
        proof {
            assert(ps@[k as int].in_domain(*prm));
        }
    }
    proof {
        assert(ps@ =~= analyzed_brute_spec(old(ps)@, *prm));
    }
}

} // verus!
