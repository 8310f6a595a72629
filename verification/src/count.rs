//! A small counting toolkit: how many integers below a bound satisfy a
//! predicate, and how many entries of an index sequence do. The neighbor
//! analyzer states its counts with these, and the lemmas here let a scan
//! over grid buckets be summed up into a count over the whole store.

use vstd::prelude::*;

verus! {

/// Number of integers `m` with `0 <= m < n` satisfying `f`.
pub open spec fn cnt(f: spec_fn(int) -> bool, n: int) -> int
    decreases n,
{
    if n <= 0 {
        0
    } else {
        cnt(f, n - 1) + if f(n - 1) { 1int } else { 0int }
    }
}

/// Number of entries of `s` whose value satisfies `f`.
pub open spec fn cnt_seq(s: Seq<usize>, f: spec_fn(int) -> bool) -> int
    decreases s.len(),
{
    if s.len() == 0 {
        0
    } else {
        cnt_seq(s.drop_last(), f) + if f(s.last() as int) { 1int } else { 0int }
    }
}

/// `s` holds `m`.
pub open spec fn has_int(s: Seq<usize>, m: int) -> bool {
    exists|i: int| 0 <= i < s.len() && #[trigger] s[i] as int == m
}

/// `s` is strictly increasing.
pub open spec fn strict_inc(s: Seq<usize>) -> bool {
    forall|i: int, j: int| 0 <= i < j < s.len() ==> #[trigger] s[i] < #[trigger] s[j]
}

/// A count lies between `0` and its range bound.
pub proof fn lemma_cnt_bounds(f: spec_fn(int) -> bool, n: int)
    requires
        0 <= n,
    ensures
        0 <= cnt(f, n) <= n,
    decreases n,
{
    if n > 0 {
        lemma_cnt_bounds(f, n - 1);
    }
}

/// Predicates that agree below `n` count the same.
pub proof fn lemma_cnt_ext(f: spec_fn(int) -> bool, g: spec_fn(int) -> bool, n: int)
    requires
        forall|m: int| 0 <= m < n ==> #[trigger] f(m) == #[trigger] g(m),
    ensures
        cnt(f, n) == cnt(g, n),
    decreases n,
{
    if n > 0 {
        lemma_cnt_ext(f, g, n - 1);
    }
}

/// A count splits along any second predicate.
pub proof fn lemma_cnt_split(f: spec_fn(int) -> bool, g: spec_fn(int) -> bool, n: int)
    ensures
        cnt(f, n) == cnt(|m: int| f(m) && g(m), n) + cnt(|m: int| f(m) && !g(m), n),
    decreases n,
{
    if n > 0 {
        lemma_cnt_split(f, g, n - 1);
        assert(cnt(|m: int| f(m) && g(m), n)
            == cnt(|m: int| f(m) && g(m), n - 1) + if f(n - 1) && g(n - 1) { 1int } else { 0int });
        assert(cnt(|m: int| f(m) && !g(m), n)
            == cnt(|m: int| f(m) && !g(m), n - 1)
                + if f(n - 1) && !g(n - 1) { 1int } else { 0int });
    }
}

/// A union of two disjoint predicates counts as the sum of the parts.
pub proof fn lemma_cnt_disjoint(
    h: spec_fn(int) -> bool, f: spec_fn(int) -> bool, g: spec_fn(int) -> bool, n: int,
)
    requires
        forall|m: int| 0 <= m < n ==> #[trigger] h(m) == (f(m) || g(m)),
        forall|m: int| 0 <= m < n ==> !(#[trigger] f(m) && #[trigger] g(m)),
    ensures
        cnt(h, n) == cnt(f, n) + cnt(g, n),
    decreases n,
{
    if n > 0 {
        lemma_cnt_disjoint(h, f, g, n - 1);
    }
}

/// A predicate empty on `[m, n)` counts over `n` as it does over `m`.
pub proof fn lemma_cnt_restrict(f: spec_fn(int) -> bool, n: int, m: int)
    requires
        0 <= m <= n,
        forall|i: int| m <= i < n ==> !#[trigger] f(i),
    ensures
        cnt(f, n) == cnt(f, m),
    decreases n,
{
    if n > m {
        lemma_cnt_restrict(f, n - 1, m);
    }
}

/// Raising a predicate at one point raises its count by one.
pub proof fn lemma_cnt_point(f: spec_fn(int) -> bool, g: spec_fn(int) -> bool, p: int, n: int)
    requires
        0 <= p < n,
        forall|m: int| 0 <= m < n && m != p ==> #[trigger] f(m) == #[trigger] g(m),
        !f(p),
        g(p),
    ensures
        cnt(g, n) == cnt(f, n) + 1,
    decreases n,
{
    if n - 1 > p {
        lemma_cnt_point(f, g, p, n - 1);
    } else {
        lemma_cnt_ext(f, g, n - 1);
    }
}

/// A strictly increasing sequence that enumerates exactly the values
/// below `n` satisfying `q` counts a predicate as the range count of the
/// conjunction does.
pub proof fn lemma_cnt_seq_sorted(
    s: Seq<usize>, f: spec_fn(int) -> bool, q: spec_fn(int) -> bool, n: int,
)
    requires
        0 <= n,
        strict_inc(s),
        forall|i: int| 0 <= i < s.len() ==> #[trigger] (s[i] as int) < n,
        forall|m: int| 0 <= m < n ==> #[trigger] q(m) == has_int(s, m),
    ensures
        cnt_seq(s, f) == cnt(|m: int| q(m) && f(m), n),
    decreases n,
{
    if n == 0 {
        if s.len() > 0 {
            assert((s[0] as int) < 0);
        }
    } else if q(n - 1) {
        assert(has_int(s, n - 1));
        let i = choose|i: int| 0 <= i < s.len() && #[trigger] s[i] as int == n - 1;
        assert(i == s.len() - 1) by {
            if i < s.len() - 1 {
                assert(s[i] < s[s.len() - 1]);
                assert((s[s.len() - 1] as int) < n);
            }
        }
        let s2 = s.drop_last();
        assert forall|m: int| 0 <= m < n - 1 implies #[trigger] q(m) == has_int(s2, m) by {
            if has_int(s2, m) {
                let j = choose|j: int| 0 <= j < s2.len() && #[trigger] s2[j] as int == m;
                assert(s[j] as int == m);
                assert(q(m));
            }
            if q(m) {
                let j = choose|j: int| 0 <= j < s.len() && #[trigger] s[j] as int == m;
                assert(j < s.len() - 1) by {
                    assert(s[s.len() - 1] as int == n - 1);
                }
                assert(s2[j] as int == m);
                assert(has_int(s2, m));
            }
        }
        lemma_cnt_seq_sorted(s2, f, q, n - 1);
    } else {
        assert forall|i: int| 0 <= i < s.len() implies #[trigger] (s[i] as int) < n - 1 by {
            assert(has_int(s, s[i] as int));
            assert(q(s[i] as int));
        }
        assert forall|m: int| 0 <= m < n - 1 implies #[trigger] q(m) == has_int(s, m) by {}
        lemma_cnt_seq_sorted(s, f, q, n - 1);
    }
}

/// A sequence count lies between `0` and the sequence length.
pub proof fn lemma_cnt_seq_bounds(s: Seq<usize>, f: spec_fn(int) -> bool)
    ensures
        0 <= cnt_seq(s, f) <= s.len(),
    decreases s.len(),
{
    if s.len() > 0 {
        lemma_cnt_seq_bounds(s.drop_last(), f);
    }
}

/// A predicate false at one point counts at most `n - 1`.
pub proof fn lemma_cnt_exclude(f: spec_fn(int) -> bool, p: int, n: int)
    requires
        0 <= p < n,
        !f(p),
    ensures
        cnt(f, n) <= n - 1,
    decreases n,
{
    lemma_cnt_bounds(f, n);
    if p < n - 1 {
        lemma_cnt_exclude(f, p, n - 1);
    } else {
        lemma_cnt_bounds(f, n - 1);
    }
}

/// In a strictly increasing sequence, an entry is at least its index.
pub proof fn lemma_strict_inc_idx(s: Seq<usize>, i: int)
    requires
        strict_inc(s),
        0 <= i < s.len(),
    ensures
        s[i] as int >= i,
    decreases i,
{
    if i > 0 {
        lemma_strict_inc_idx(s, i - 1);
    }
}

/// A strictly increasing sequence of values below `n` has at most `n`
/// entries.
pub proof fn lemma_strict_inc_len(s: Seq<usize>, n: int)
    requires
        strict_inc(s),
        forall|i: int| 0 <= i < s.len() ==> #[trigger] (s[i] as int) < n,
        0 <= n,
    ensures
        s.len() <= n,
{
    if s.len() > 0 {
        lemma_strict_inc_idx(s, s.len() - 1);
    }
}

/// Appending one entry extends a sequence count by that entry's test.
pub proof fn lemma_cnt_seq_push(s: Seq<usize>, v: usize, f: spec_fn(int) -> bool)
    ensures
        cnt_seq(s.push(v), f) == cnt_seq(s, f) + if f(v as int) { 1int } else { 0int },
{
    assert(s.push(v).drop_last() =~= s);
    assert(s.push(v).last() == v);
}

} // verus!
