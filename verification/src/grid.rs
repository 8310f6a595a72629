//! The spatial index: a uniform grid of bins sized to the interaction
//! radius, rebuilt every step. Each bin holds, in store order, the
//! indices of the particles whose cell it is; no particle is dropped or
//! duplicated.

use vstd::prelude::*;
use vstd::arithmetic::div_mod::{
    lemma_div_pos_is_pos, lemma_div_is_ordered, lemma_div_multiples_vanish,
};
use vstd::arithmetic::mul::lemma_mul_inequality;
use crate::soup::{Particle, Particles, Parameters};
use crate::torus::MAX_EXTENT;
use crate::count::{has_int, strict_inc};

verus! {

/// The grid: rows of columns of buckets of particle indices.
pub type Grid = Vec<Vec<Vec<usize>>>;

/// Number of bins along an axis: the extent divided by the radius,
/// rounded up.
pub open spec fn dim_spec(extent: int, radius: int) -> int {
    (extent + radius - 1) / radius
}

/// Number of bin rows of the grid of `prm`.
pub open spec fn rows_spec(prm: Parameters) -> int {
    dim_spec(prm.y_max as int, prm.radius as int)
}

/// Number of bin columns of the grid of `prm`.
pub open spec fn cols_spec(prm: Parameters) -> int {
    dim_spec(prm.x_max as int, prm.radius as int)
}

/// The bin row of particle `i`.
pub open spec fn row_of(ps: Seq<Particle>, prm: Parameters, i: int) -> int {
    (ps[i].y as int) / (prm.radius as int)
}

/// The bin column of particle `i`.
pub open spec fn col_of(ps: Seq<Particle>, prm: Parameters, i: int) -> int {
    (ps[i].x as int) / (prm.radius as int)
}

/// The bucket of the grid at bin `(r, c)`.
pub open spec fn bucket_of(g: Grid, r: int, c: int) -> Seq<usize> {
    g@[r]@[c]@
}

/// A coordinate inside `[0, extent)` falls in a bin index inside
/// `[0, dim_spec(extent, radius))`, and that range is nonempty and at
/// most `extent`.
pub proof fn lemma_cell_in_range(v: int, extent: int, radius: int)
    requires
        0 <= v < extent,
        0 < radius,
        1 <= extent,
    ensures
        0 <= v / radius < dim_spec(extent, radius),
        1 <= dim_spec(extent, radius) <= extent,
{
    let d = dim_spec(extent, radius);
    let q = v / radius;
    lemma_div_pos_is_pos(v, radius);
    vstd::arithmetic::div_mod::lemma_fundamental_div_mod(v, radius);
    vstd::arithmetic::div_mod::lemma_mod_bound(v, radius);
    // radius * q <= v, so radius * (q + 1) <= extent + radius - 1.
    assert(radius * (q + 1) <= extent + radius - 1) by (nonlinear_arith)
        requires radius * q <= v, v < extent, 0 < radius;
    lemma_div_is_ordered(radius * (q + 1), extent + radius - 1, radius);
    lemma_div_multiples_vanish(q + 1, radius);
    // dim >= 1: radius * 1 <= extent + radius - 1 since extent >= 1.
    lemma_div_is_ordered(radius * 1, extent + radius - 1, radius);
    lemma_div_multiples_vanish(1, radius);
    // dim <= extent: extent + radius - 1 <= radius * extent.
    assert(extent + radius - 1 <= radius * extent) by (nonlinear_arith)
        requires 1 <= extent, 0 < radius;
    lemma_div_is_ordered(extent + radius - 1, radius * extent, radius);
    lemma_div_multiples_vanish(extent, radius);
}

/// Number of bins along one axis, executable form.
pub fn dim(extent: i64, radius: i64) -> (d: usize)
    requires
        0 < radius <= MAX_EXTENT,
        0 < extent <= MAX_EXTENT,
    ensures
        d as int == dim_spec(extent as int, radius as int),
        1 <= d as int <= extent,
{
    proof {
        lemma_cell_in_range(0, extent as int, radius as int);
    }
    (((extent + radius - 1) as u64) / (radius as u64)) as usize
}

/// The grid is well formed for `ps` and `prm`: correct dimensions, every
/// bucket strictly increasing, every entry a valid index placed in its
/// own cell, and every particle present in its cell's bucket.
pub open spec fn grid_wf(g: Grid, ps: Seq<Particle>, prm: Parameters) -> bool {
    &&& g@.len() == rows_spec(prm)
    &&& forall|r: int| 0 <= r < rows_spec(prm) ==> (#[trigger] g@[r])@.len() == cols_spec(prm)
    &&& forall|r: int, c: int|
        0 <= r < rows_spec(prm) && 0 <= c < cols_spec(prm)
            ==> strict_inc(#[trigger] bucket_of(g, r, c))
    &&& forall|r: int, c: int, t: int|
        0 <= r < rows_spec(prm) && 0 <= c < cols_spec(prm)
            && 0 <= t < bucket_of(g, r, c).len()
            ==> {
                let id = (#[trigger] bucket_of(g, r, c)[t]) as int;
                &&& 0 <= id < ps.len()
                &&& row_of(ps, prm, id) == r
                &&& col_of(ps, prm, id) == c
            }
    &&& forall|m: int| 0 <= m < ps.len()
        ==> has_int(
            bucket_of(g, #[trigger] row_of(ps, prm, m), col_of(ps, prm, m)), m)
}

/// In a well-formed grid, a bucket holds exactly the indices of the
/// particles whose cell is `(r, c)`.
pub proof fn lemma_bucket_members(g: Grid, ps: Seq<Particle>, prm: Parameters, r: int, c: int)
    requires
        grid_wf(g, ps, prm),
        0 <= r < rows_spec(prm),
        0 <= c < cols_spec(prm),
    ensures
        forall|m: int| #[trigger] has_int(bucket_of(g, r, c), m)
            <==> (0 <= m < ps.len() && row_of(ps, prm, m) == r && col_of(ps, prm, m) == c),
{
    assert forall|m: int| #[trigger] has_int(bucket_of(g, r, c), m)
        implies (0 <= m < ps.len() && row_of(ps, prm, m) == r && col_of(ps, prm, m) == c) by {
        let t = choose|t: int|
            0 <= t < bucket_of(g, r, c).len() && #[trigger] bucket_of(g, r, c)[t] as int == m;
        assert(bucket_of(g, r, c)[t] as int == m);
    }
    assert forall|m: int|
        0 <= m < ps.len() && row_of(ps, prm, m) == r && col_of(ps, prm, m) == c
        implies #[trigger] has_int(bucket_of(g, r, c), m) by {
        assert(has_int(bucket_of(g, row_of(ps, prm, m), col_of(ps, prm, m)), m));
    }
}

/// Build the spatial index of `ps`: visit the particles in store order
/// and append each index to the bucket of its cell.
pub fn build_grid(ps: &Particles, prm: &Parameters) -> (g: Grid)
    requires
        prm.valid_spec(),
        crate::soup::store_ok_spec(ps@, *prm),
    ensures
        grid_wf(g, ps@, *prm),
{
    let rows: usize = dim(prm.y_max, prm.radius);
    let cols: usize = dim(prm.x_max, prm.radius);
    let mut g: Grid = Vec::new();
    for r in 0..rows
        invariant
            g@.len() == r,
            forall|rr: int| 0 <= rr < r ==> (#[trigger] g@[rr])@.len() == cols,
            forall|rr: int, cc: int| 0 <= rr < r && 0 <= cc < cols
                ==> (#[trigger] bucket_of(g, rr, cc)).len() == 0,
    {
        let mut row: Vec<Vec<usize>> = Vec::new();
        for c in 0..cols
            invariant
                row@.len() == c,
                forall|cc: int| 0 <= cc < c ==> (#[trigger] row@[cc])@.len() == 0,
        {
            row.push(Vec::new());
        }
        let ghost g0 = g;
        g.push(row);
        proof {
            assert forall|rr: int, cc: int| 0 <= rr < r + 1 && 0 <= cc < cols
                implies (#[trigger] bucket_of(g, rr, cc)).len() == 0 by {
                if rr == r {
                    assert(g@[rr] == row);
                } else {
                    assert(g@[rr] == g0@[rr]);
                    assert(bucket_of(g0, rr, cc).len() == 0);
                }
            }
        }
    }
    proof {
        assert(rows as int == rows_spec(*prm));
        assert(cols as int == cols_spec(*prm));
    }
    for id in 0..ps.len()
        invariant
            prm.valid_spec(),
            crate::soup::store_ok_spec(ps@, *prm),
            rows as int == rows_spec(*prm),
            cols as int == cols_spec(*prm),
            g@.len() == rows,
            forall|r: int| 0 <= r < rows ==> (#[trigger] g@[r])@.len() == cols,
            forall|r: int, c: int|
                0 <= r < rows && 0 <= c < cols
                    ==> strict_inc(#[trigger] bucket_of(g, r, c)),
            forall|r: int, c: int, t: int|
                0 <= r < rows && 0 <= c < cols && 0 <= t < bucket_of(g, r, c).len()
                    ==> {
                        let e = (#[trigger] bucket_of(g, r, c)[t]) as int;
                        &&& 0 <= e < id
                        &&& row_of(ps@, *prm, e) == r
                        &&& col_of(ps@, *prm, e) == c
                    },
            forall|m: int| 0 <= m < id
                ==> has_int(
                    bucket_of(g, #[trigger] row_of(ps@, *prm, m), col_of(ps@, *prm, m)), m),
    {
        let p = ps[id];
        proof {
            assert(ps@[id as int].in_domain(*prm));
            lemma_cell_in_range(p.y as int, prm.y_max as int, prm.radius as int);
            lemma_cell_in_range(p.x as int, prm.x_max as int, prm.radius as int);
        }
        let rr: usize = (((p.y as u64) / (prm.radius as u64))) as usize;
        let cc: usize = (((p.x as u64) / (prm.radius as u64))) as usize;
        let ghost old_g = g;
        g[rr][cc].push(id);
        proof {
            let rri = rr as int;
            let cci = cc as int;
            assert(rri == row_of(ps@, *prm, id as int));
            assert(cci == col_of(ps@, *prm, id as int));
            assert(bucket_of(g, rri, cci) =~= bucket_of(old_g, rri, cci).push(id));
            assert forall|r: int, c: int|
                0 <= r < rows && 0 <= c < cols && !(r == rri && c == cci)
                implies bucket_of(g, r, c) =~= bucket_of(old_g, r, c) by {}
            // the appended index exceeds every entry already in its bucket
            assert forall|r: int, c: int|
                0 <= r < rows && 0 <= c < cols
                implies strict_inc(#[trigger] bucket_of(g, r, c)) by {
                if r == rri && c == cci {
                    let b = bucket_of(g, r, c);
                    let b0 = bucket_of(old_g, r, c);
                    assert forall|i: int, j: int| 0 <= i < j < b.len()
                        implies #[trigger] b[i] < #[trigger] b[j] by {
                        if j < b0.len() {
                            assert(b0[i] < b0[j]);
                        } else {
                            assert(b[j] == id);
                            assert((b0[i] as int) < id as int);
                        }
                    }
                }
            }
            assert(has_int(bucket_of(g, rri, cci), id as int)) by {
                let b = bucket_of(g, rri, cci);
                assert(b[b.len() - 1] as int == id as int);
            }
            assert forall|m: int| 0 <= m < id + 1
                implies has_int(
                    bucket_of(g, #[trigger] row_of(ps@, *prm, m), col_of(ps@, *prm, m)), m) by {
                if m < id {
                    let br = row_of(ps@, *prm, m);
                    let bc = col_of(ps@, *prm, m);
                    assert(ps@[m].in_domain(*prm));
                    lemma_cell_in_range(ps@[m].y as int, prm.y_max as int, prm.radius as int);
                    lemma_cell_in_range(ps@[m].x as int, prm.x_max as int, prm.radius as int);
                    assert(has_int(bucket_of(old_g, br, bc), m));
                    let t = choose|t: int|
                        0 <= t < bucket_of(old_g, br, bc).len()
                            && #[trigger] bucket_of(old_g, br, bc)[t] as int == m;
                    if br == rri && bc == cci {
                        assert(bucket_of(g, br, bc)[t] == bucket_of(old_g, br, bc)[t]);
                    } else {
                        assert(bucket_of(g, br, bc) =~= bucket_of(old_g, br, bc));
                    }
                    assert(bucket_of(g, br, bc)[t] as int == m);
                }
            }
        }
    }
    g
}

} // verus!
