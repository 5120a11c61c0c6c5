//! Crowding-distance ranking of the leader set: per-objective sorting,
//! boundary leaders get an infinite distance, interior leaders get the
//! normalized gap between their neighbours, summed over objectives.

use crate::views_of;
use crate::SCALE;
use vstd::prelude::*;

verus! {

/// A leader's crowding distance: either a finite fixed-point sum or
/// infinite (the leader is extremal in some objective dimension).
#[derive(Clone, Copy, PartialEq, Eq, Structural, Debug)]
pub enum CrowdDist {
    Finite(u128),
    Infinite,
}

/// An upper bound on any single dimension's normalized contribution.
pub open spec fn gain_cap() -> int {
    0x10_0000_0000_0000_0000_0000
}

/// Strict total order on leader indices for objective `d`: by the
/// fitness in dimension `d`, ties broken by index.
pub open spec fn dim_lt(fits: Seq<Seq<i64>>, d: int, i: int, j: int) -> bool {
    fits[i][d] < fits[j][d] || (fits[i][d] == fits[j][d] && i < j)
}

/// Leader `i` comes first in dimension `d`.
pub open spec fn is_dim_min(fits: Seq<Seq<i64>>, d: int, i: int) -> bool {
    forall|j: int| 0 <= j < fits.len() && j != i ==> dim_lt(fits, d, i, j)
}

/// Leader `i` comes last in dimension `d`.
pub open spec fn is_dim_max(fits: Seq<Seq<i64>>, d: int, i: int) -> bool {
    forall|j: int| 0 <= j < fits.len() && j != i ==> dim_lt(fits, d, j, i)
}

/// Leader `i` is extremal in some of the first `ndim` dimensions.
pub open spec fn is_boundary(fits: Seq<Seq<i64>>, ndim: int, i: int) -> bool {
    exists|d: int| 0 <= d < ndim && (is_dim_min(fits, d, i) || is_dim_max(fits, d, i))
}

/// `j` sits directly below `i` in dimension `d`: it is below `i`, and
/// every other leader below `i` is below `j`.
pub open spec fn is_below_neighbor(fits: Seq<Seq<i64>>, d: int, j: int, i: int) -> bool {
    &&& 0 <= j < fits.len()
    &&& dim_lt(fits, d, j, i)
    &&& forall|k: int|
        0 <= k < fits.len() && k != j && dim_lt(fits, d, k, i) ==> dim_lt(fits, d, k, j)
}

/// `j` sits directly above `i` in dimension `d`.
pub open spec fn is_above_neighbor(fits: Seq<Seq<i64>>, d: int, j: int, i: int) -> bool {
    &&& 0 <= j < fits.len()
    &&& dim_lt(fits, d, i, j)
    &&& forall|k: int|
        0 <= k < fits.len() && k != j && dim_lt(fits, d, i, k) ==> dim_lt(fits, d, j, k)
}

pub open spec fn below_neighbor(fits: Seq<Seq<i64>>, d: int, i: int) -> int {
    choose|j: int| is_below_neighbor(fits, d, j, i)
}

pub open spec fn above_neighbor(fits: Seq<Seq<i64>>, d: int, i: int) -> int {
    choose|j: int| is_above_neighbor(fits, d, j, i)
}

/// What an interior leader gains in dimension `d`: the gap between its
/// two neighbours, normalized by the objective's bound range (a
/// zero-width range is a degenerate single point and contributes
/// nothing).
pub open spec fn contribution(fits: Seq<Seq<i64>>, bounds: Seq<(i64, i64)>, d: int, i: int) -> int {
    let p = below_neighbor(fits, d, i);
    let q = above_neighbor(fits, d, i);
    let range = bounds[d].1 - bounds[d].0;
    if range <= 0 {
        0
    } else {
        ((fits[q][d] - fits[p][d]) * SCALE) / range
    }
}

/// The finite part of leader `i`'s crowding distance over the first
/// `ndim` dimensions.
pub open spec fn finite_dist(fits: Seq<Seq<i64>>, bounds: Seq<(i64, i64)>, i: int, ndim: int) -> int
    decreases ndim,
{
    if ndim <= 0 {
        0
    } else {
        finite_dist(fits, bounds, i, ndim - 1) + (if is_dim_min(fits, ndim - 1, i) || is_dim_max(
            fits,
            ndim - 1,
            i,
        ) {
            0
        } else {
            contribution(fits, bounds, ndim - 1, i)
        })
    }
}

/// Leader `i`'s crowding distance: infinite on the boundary of any
/// objective dimension, otherwise the summed normalized gaps.
pub open spec fn crowd_dist_spec(fits: Seq<Seq<i64>>, bounds: Seq<(i64, i64)>, i: int) -> CrowdDist {
    if is_boundary(fits, bounds.len() as int, i) {
        CrowdDist::Infinite
    } else {
        CrowdDist::Finite(finite_dist(fits, bounds, i, bounds.len() as int) as u128)
    }
}

/// In a leader set of at most two, every leader is extremal in every
/// dimension, so every leader's crowding distance is infinite.
pub proof fn lemma_small_set_infinite(fits: Seq<Seq<i64>>, bounds: Seq<(i64, i64)>, i: int)
    requires
        1 <= fits.len() <= 2,
        bounds.len() >= 1,
        0 <= i < fits.len(),
    ensures
        crowd_dist_spec(fits, bounds, i) == CrowdDist::Infinite,
{
    if fits.len() == 1 {
        assert(is_dim_min(fits, 0, i));
    } else {
        let j = 1 - i;
        if dim_lt(fits, 0, i, j) {
            assert(is_dim_min(fits, 0, i));
        } else {
            assert(dim_lt(fits, 0, j, i));
            assert(is_dim_max(fits, 0, i));
        }
    }
    assert(is_boundary(fits, bounds.len() as int, i));
}

/// Some position of `perm` holds the value `v`.
pub open spec fn perm_contains(perm: Seq<usize>, v: int) -> bool {
    exists|k: int| 0 <= k < perm.len() && #[trigger] perm[k] == v
}

/// A permutation of `0 .. n`, sorted by the strict order of dimension
/// `d`.
pub open spec fn sorted_perm_for_dim(fits: Seq<Seq<i64>>, d: int, perm: Seq<usize>) -> bool {
    &&& perm.len() == fits.len()
    &&& forall|k: int| 0 <= k < perm.len() ==> #[trigger] perm[k] < fits.len()
    &&& forall|v: int| 0 <= v < fits.len() ==> #[trigger] perm_contains(perm, v)
    &&& forall|k1: int, k2: int|
        #![trigger perm[k1], perm[k2]]
        0 <= k1 < k2 < perm.len() ==> dim_lt(fits, d, perm[k1] as int, perm[k2] as int)
}

/// Sorts the leader indices by fitness in dimension `d` (ties by
/// index), returning the sorted permutation.
fn sort_by_dim(fits: &Vec<Vec<i64>>, nobj: usize, d: usize) -> (perm: Vec<usize>)
    requires
        forall|i: int| 0 <= i < fits.len() ==> #[trigger] fits[i].len() == nobj,
        d < nobj,
    ensures
        sorted_perm_for_dim(views_of(fits@), d as int, perm@),
{
    let ghost fv = views_of(fits@);
    let n = fits.len();
    let mut perm: Vec<usize> = Vec::new();
    let mut i: usize = 0;
    while i < n
        invariant
            0 <= i <= n,
            perm.len() == i,
            forall|k: int| 0 <= k < i ==> #[trigger] perm[k] == k,
        decreases n - i,
    {
        perm.push(i);
        i += 1;
    }
    proof {
        assert forall|v: int| 0 <= v < n implies #[trigger] perm_contains(perm@, v) by {
            assert(perm@[v] == v);
        }
    }
    let mut a: usize = 0;
    while a < n
        invariant
            fits.len() == n,
            forall|t: int| 0 <= t < n ==> #[trigger] fits[t].len() == nobj,
            d < nobj,
            0 <= a <= n,
            fv == views_of(fits@),
            perm.len() == n,
            forall|k: int| 0 <= k < n ==> #[trigger] perm[k] < n,
            forall|k1: int, k2: int|
                #![trigger perm[k1], perm[k2]]
                0 <= k1 < k2 < n ==> perm[k1] != perm[k2],
            forall|v: int| 0 <= v < n ==> #[trigger] perm_contains(perm@, v),
            forall|k1: int, k2: int|
                #![trigger perm[k1], perm[k2]]
                0 <= k1 < k2 < a ==> dim_lt(fv, d as int, perm[k1] as int, perm[k2] as int),
            forall|k: int, j: int|
                #![trigger perm[k], perm[j]]
                0 <= k < a && a <= j < n ==> dim_lt(fv, d as int, perm[k] as int, perm[j] as int),
        decreases n - a,
    {
        let mut m: usize = a;
        let mut j: usize = a + 1;
        while j < n
            invariant
                fits.len() == n,
                forall|t: int| 0 <= t < n ==> #[trigger] fits[t].len() == nobj,
                d < nobj,
                0 <= a < n,
                fv == views_of(fits@),
                a <= m < j,
                a + 1 <= j <= n,
                perm.len() == n,
                forall|k: int| 0 <= k < n ==> #[trigger] perm[k] < n,
                forall|k1: int, k2: int|
                    #![trigger perm[k1], perm[k2]]
                    0 <= k1 < k2 < n ==> perm[k1] != perm[k2],
                forall|t: int|
                    a <= t < j && t != m ==> dim_lt(fv, d as int, perm[m as int] as int,
                    #[trigger] perm[t] as int),
            decreases n - j,
        {
            let pj = perm[j];
            let pm = perm[m];
            proof {
                assert(perm@[j as int] < n && perm@[m as int] < n);
                assert(fits@[pj as int].len() == nobj && fits@[pm as int].len() == nobj);
            }
            if fits[pj][d] < fits[pm][d] || (fits[pj][d] == fits[pm][d] && pj < pm) {
                proof {
                    assert(dim_lt(fv, d as int, pj as int, pm as int));
                    assert forall|t: int| a <= t < j + 1 && t != j implies dim_lt(
                        fv,
                        d as int,
                        perm@[j as int] as int,
                        #[trigger] perm@[t] as int,
                    ) by {
                        if t != m {
                            assert(dim_lt(fv, d as int, pm as int, perm@[t] as int));
                        }
                    }
                }
                m = j;
            } else {
                proof {
                    assert(perm@[m as int] != perm@[j as int]);
                    assert(dim_lt(fv, d as int, pm as int, pj as int));
                }
            }
            j += 1;
        }
        let ghost p0 = perm@;
        let pa = perm[a];
        let pm = perm[m];
        perm.set(a, pm);
        perm.set(m, pa);
        proof {
            assert(perm@[a as int] == p0[m as int] || a == m);
            assert(perm@[m as int] == p0[a as int]);
            assert forall|k: int| 0 <= k < n && k != a as int && k != m as int implies perm@[k]
                == p0[k] by {}
            assert forall|k: int| 0 <= k < n implies #[trigger] perm[k] < n by {
                if k == a as int || k == m as int {
                } else {
                    assert(perm@[k] == p0[k]);
                }
            }
            assert forall|k1: int, k2: int|
                #![trigger perm[k1], perm[k2]]
                0 <= k1 < k2 < n implies perm[k1] != perm[k2] by {
                let v1 = if k1 == a as int { m as int } else if k1 == m as int { a as int } else { k1 };
                let v2 = if k2 == a as int { m as int } else if k2 == m as int { a as int } else { k2 };
                assert(perm@[k1] == p0[v1]);
                assert(perm@[k2] == p0[v2]);
                assert(v1 != v2);
                assert(p0[v1] != p0[v2]);
            }
            assert forall|v: int| 0 <= v < n implies #[trigger] perm_contains(perm@, v) by {
                assert(perm_contains(p0, v));
                let k0 = choose|k: int| 0 <= k < p0.len() && #[trigger] p0[k] == v;
                if k0 == a as int {
                    assert(perm@[m as int] == v);
                } else if k0 == m as int {
                    assert(perm@[a as int] == v);
                } else {
                    assert(perm@[k0] == v);
                }
            }
            assert forall|k1: int, k2: int|
                #![trigger perm[k1], perm[k2]]
                0 <= k1 < k2 < a + 1 implies dim_lt(fv, d as int, perm[k1] as int,
                perm[k2] as int) by {
                assert(k1 < a as int);
                assert(perm@[k1] == p0[k1]);
                if k2 == a as int {
                    assert(perm@[k2] == p0[m as int] || a == m);
                    assert(dim_lt(fv, d as int, p0[k1] as int, p0[m as int] as int));
                } else {
                    assert(perm@[k2] == p0[k2]);
                }
            }
            assert forall|k: int, j: int|
                #![trigger perm[k], perm[j]]
                0 <= k < a + 1 && a + 1 <= j < n implies dim_lt(fv, d as int, perm[k] as int,
                perm[j] as int) by {
                let vj = if j == m as int { a as int } else { j };
                assert(perm@[j] == p0[vj]);
                if k < a as int {
                    assert(perm@[k] == p0[k]);
                    assert(dim_lt(fv, d as int, p0[k] as int, p0[vj] as int));
                } else {
                    assert(perm@[k] == p0[m as int] || a == m);
                    if vj != m as int {
                        assert(dim_lt(fv, d as int, p0[m as int] as int, p0[vj] as int));
                    }
                }
            }
        }
        a += 1;
    }
    perm
}

/// In a sorted permutation, the first entry is the dimension minimum,
/// the last is the dimension maximum, and no other entry is either.
pub proof fn lemma_perm_extremes(fits: Seq<Seq<i64>>, d: int, perm: Seq<usize>, k: int)
    requires
        sorted_perm_for_dim(fits, d, perm),
        0 <= k < perm.len(),
    ensures
        k == 0 ==> is_dim_min(fits, d, perm[k] as int),
        k == perm.len() - 1 ==> is_dim_max(fits, d, perm[k] as int),
        0 < k < perm.len() - 1 ==> !is_dim_min(fits, d, perm[k] as int) && !is_dim_max(
            fits,
            d,
            perm[k] as int,
        ),
{
    let n = perm.len() as int;
    if k == 0 {
        assert forall|j: int|
            #![trigger dim_lt(fits, d, perm[0] as int, j)]
            0 <= j < fits.len() && j != perm[0] as int implies dim_lt(fits, d, perm[0] as int, j) by {
            assert(perm_contains(perm, j));
            let kj = choose|kk: int| 0 <= kk < perm.len() && #[trigger] perm[kk] == j;
            assert(kj != 0);
        }
    }
    if k == n - 1 {
        assert forall|j: int|
            #![trigger dim_lt(fits, d, j, perm[n - 1] as int)]
            0 <= j < fits.len() && j != perm[n - 1] as int implies dim_lt(fits, d, j, perm[n - 1] as int) by {
            assert(perm_contains(perm, j));
            let kj = choose|kk: int| 0 <= kk < perm.len() && #[trigger] perm[kk] == j;
            assert(kj != n - 1);
        }
    }
    if 0 < k < n - 1 {
        assert(dim_lt(fits, d, perm[0] as int, perm[k] as int));
        assert(dim_lt(fits, d, perm[k] as int, perm[n - 1] as int));
        if is_dim_min(fits, d, perm[k] as int) {
            assert(perm[0] as int != perm[k] as int);
            assert(dim_lt(fits, d, perm[k] as int, perm[0] as int));
            assert(false);
        }
        if is_dim_max(fits, d, perm[k] as int) {
            assert(perm[n - 1] as int != perm[k] as int);
            assert(dim_lt(fits, d, perm[n - 1] as int, perm[k] as int));
            assert(false);
        }
    }
}

/// The sorted neighbours of an interior entry are its order-theoretic
/// neighbours, and they pin down the `choose` in `contribution`.
pub proof fn lemma_perm_neighbors(fits: Seq<Seq<i64>>, d: int, perm: Seq<usize>, k: int)
    requires
        sorted_perm_for_dim(fits, d, perm),
        0 < k < perm.len() - 1,
    ensures
        below_neighbor(fits, d, perm[k] as int) == perm[k - 1] as int,
        above_neighbor(fits, d, perm[k] as int) == perm[k + 1] as int,
{
    let n = perm.len() as int;
    let i = perm[k] as int;
    assert forall|t: int|
        0 <= t < fits.len() && t != perm[k - 1] as int && dim_lt(fits, d, t, i) implies dim_lt(
        fits,
        d,
        t,
        perm[k - 1] as int,
    ) by {
        assert(perm_contains(perm, t));
        let kt = choose|kk: int| 0 <= kk < perm.len() && #[trigger] perm[kk] == t;
        if kt >= k {
            if kt > k {
                assert(dim_lt(fits, d, i, t));
            }
            assert(false);
        }
        assert(kt < k - 1);
    }
    assert(is_below_neighbor(fits, d, perm[k - 1] as int, i));
    assert forall|t: int|
        0 <= t < fits.len() && t != perm[k + 1] as int && dim_lt(fits, d, i, t) implies dim_lt(
        fits,
        d,
        perm[k + 1] as int,
        t,
    ) by {
        assert(perm_contains(perm, t));
        let kt = choose|kk: int| 0 <= kk < perm.len() && #[trigger] perm[kk] == t;
        if kt <= k {
            if kt < k {
                assert(dim_lt(fits, d, t, i));
            }
            assert(false);
        }
        assert(kt > k + 1);
    }
    assert(is_above_neighbor(fits, d, perm[k + 1] as int, i));
    let b = below_neighbor(fits, d, i);
    assert(is_below_neighbor(fits, d, b, i));
    if b != perm[k - 1] as int {
        assert(dim_lt(fits, d, b, perm[k - 1] as int));
        assert(dim_lt(fits, d, perm[k - 1] as int, b));
        assert(false);
    }
    let q = above_neighbor(fits, d, i);
    assert(is_above_neighbor(fits, d, q, i));
    if q != perm[k + 1] as int {
        assert(dim_lt(fits, d, perm[k + 1] as int, q));
        assert(dim_lt(fits, d, q, perm[k + 1] as int));
        assert(false);
    }
}

/// Computes every leader's crowding distance.
pub fn crowding_distances(fits: &Vec<Vec<i64>>, bounds: &Vec<(i64, i64)>) -> (r: Vec<CrowdDist>)
    requires
        fits.len() >= 1,
        forall|i: int| 0 <= i < fits.len() ==> #[trigger] fits[i].len() == bounds.len(),
        bounds.len() <= 0x1_0000_0000,
    ensures
        r.len() == fits.len(),
        forall|i: int|
            0 <= i < fits.len() ==> #[trigger] r[i] == crowd_dist_spec(views_of(fits@), bounds@, i),
{
    let ghost fv = views_of(fits@);
    let n = fits.len();
    let nobj = bounds.len();
    let mut acc: Vec<u128> = Vec::new();
    let mut inf: Vec<bool> = Vec::new();
    let mut i: usize = 0;
    while i < n
        invariant
            0 <= i <= n,
            acc.len() == i,
            inf.len() == i,
            forall|t: int| 0 <= t < i ==> #[trigger] acc[t] == 0,
            forall|t: int| 0 <= t < i ==> #[trigger] inf[t] == false,
        decreases n - i,
    {
        acc.push(0);
        inf.push(false);
        i += 1;
    }
    let mut d: usize = 0;
    while d < nobj
        invariant
            fits.len() == n,
            n >= 1,
            bounds.len() == nobj,
            nobj <= 0x1_0000_0000,
            forall|t: int| 0 <= t < n ==> #[trigger] fits[t].len() == nobj,
            fv == views_of(fits@),
            0 <= d <= nobj,
            acc.len() == n,
            inf.len() == n,
            forall|t: int|
                0 <= t < n ==> #[trigger] acc[t] as int == finite_dist(fv, bounds@, t, d as int),
            forall|t: int| 0 <= t < n ==> #[trigger] acc[t] as int <= (d as int) * gain_cap(),
            forall|t: int| 0 <= t < n ==> #[trigger] inf[t] == is_boundary(fv, d as int, t),
        decreases nobj - d,
    {
        let perm = sort_by_dim(fits, nobj, d);
        let ghost inf_before = inf@;
        let p_first = perm[0];
        let p_last = perm[n - 1];
        inf.set(p_first, true);
        inf.set(p_last, true);
        proof {
            lemma_perm_extremes(fv, d as int, perm@, 0);
            lemma_perm_extremes(fv, d as int, perm@, n as int - 1);
            assert forall|t: int| 0 <= t < n implies #[trigger] inf[t] == is_boundary(
                fv,
                d as int + 1,
                t,
            ) by {
                if t == p_first as int {
                    assert(is_dim_min(fv, d as int, t));
                    assert(is_boundary(fv, d as int + 1, t));
                } else if t == p_last as int {
                    assert(is_dim_max(fv, d as int, t));
                    assert(is_boundary(fv, d as int + 1, t));
                } else {
                    assert(perm_contains(perm@, t));
                    assert(perm_contains(perm@, t));
                let kt = choose|kk: int| 0 <= kk < perm@.len() && #[trigger] perm@[kk] == t;
                    assert(0 < kt < n - 1);
                    lemma_perm_extremes(fv, d as int, perm@, kt);
                    assert(inf[t] == inf_before[t]);
                    if is_boundary(fv, d as int + 1, t) && !is_boundary(fv, d as int, t) {
                        let dd = choose|dd: int|
                            0 <= dd < d as int + 1 && (is_dim_min(fv, dd, t) || is_dim_max(
                                fv,
                                dd,
                                t,
                            ));
                        assert(dd == d as int);
                        assert(false);
                    }
                    if is_boundary(fv, d as int, t) {
                        let dd = choose|dd: int|
                            0 <= dd < d as int && (is_dim_min(fv, dd, t) || is_dim_max(
                                fv,
                                dd,
                                t,
                            ));
                        assert(is_boundary(fv, d as int + 1, t));
                    }
                }
            }
        }
        let range_lo = bounds[d].0;
        let range_hi = bounds[d].1;
        let interior_end = if n >= 2 {
            n - 1
        } else {
            1
        };
        let mut k: usize = 1;
        while k < interior_end
            invariant
                fits.len() == n,
                n >= 1,
                bounds.len() == nobj,
                nobj <= 0x1_0000_0000,
                forall|t: int| 0 <= t < n ==> #[trigger] fits[t].len() == nobj,
                fv == views_of(fits@),
                0 <= d < nobj,
                range_lo == bounds[d as int].0,
                range_hi == bounds[d as int].1,
                interior_end == if n >= 2 { (n - 1) as int } else { 1int },
                1 <= k <= interior_end,
                acc.len() == n,
                sorted_perm_for_dim(fv, d as int, perm@),
                forall|m: int|
                    1 <= m < k ==> #[trigger] acc[perm@[m] as int] as int == finite_dist(
                        fv,
                        bounds@,
                        perm@[m] as int,
                        d as int + 1,
                    ),
                forall|m: int|
                    1 <= m < k ==> #[trigger] acc[perm@[m] as int] as int <= (d as int + 1)
                        * gain_cap(),
                forall|t: int|
                    0 <= t < n && (forall|m: int| 1 <= m < k ==> #[trigger] perm@[m] as int != t)
                        ==> #[trigger] acc[t] as int == finite_dist(fv, bounds@, t, d as int),
                forall|t: int|
                    0 <= t < n && (forall|m: int| 1 <= m < k ==> #[trigger] perm@[m] as int != t)
                        ==> #[trigger] acc[t] as int <= (d as int) * gain_cap(),
            decreases interior_end - k,
    {
            let j = perm[k];
            let prev = perm[k - 1];
            let next = perm[k + 1];
            proof {
                assert(perm@[k as int] < n && perm@[k - 1] < n && perm@[k + 1] < n);
                assert(j < n && prev < n && next < n);
                assert(fits@[next as int].len() == nobj && fits@[prev as int].len() == nobj);
                lemma_perm_extremes(fv, d as int, perm@, k as int);
                lemma_perm_neighbors(fv, d as int, perm@, k as int);
                assert forall|m: int| 1 <= m < k implies #[trigger] perm@[m] as int
                    != j as int by {}
            }
            let ghost t_self = j as int;
            let before = acc[j];
            proof {
                assert(acc[t_self] as int == finite_dist(fv, bounds@, t_self, d as int));
                assert(acc[t_self] as int <= (d as int) * gain_cap());
            }
            if range_hi > range_lo {
                let range = (range_hi as i128 - range_lo as i128) as u128;
                let scale_u = SCALE as u128;
                let fv_next = fits[next][d];
                let fv_prev = fits[prev][d];
                proof {
                    assert(dim_lt(fv, d as int, prev as int, next as int));
                    assert(fv_prev <= fv_next);
                }
                let diff = (fv_next as i128 - fv_prev as i128) as u128;
                proof {
                    assert(diff <= 0xffff_ffff_ffff_ffff);
                    assert(scale_u == 1_000_000);
                    assert(diff * scale_u <= 0xffff_ffff_ffff_ffff * 1_000_000) by (nonlinear_arith)
                        requires
                            diff <= 0xffff_ffff_ffff_ffff,
                            scale_u == 1_000_000,
                    ;
                }
                let gain = diff * scale_u / range;
                proof {
                    crate::lemma_div_shrinks((diff * scale_u) as int, range as int);
                    assert(gain <= diff * scale_u);
                    assert(gain as int == contribution(fv, bounds@, d as int, t_self));
                }
                acc.set(j, before + gain);
            } else {
                proof {
                    assert(contribution(fv, bounds@, d as int, t_self) == 0);
                }
            }
            proof {
                assert(acc[t_self] as int == finite_dist(fv, bounds@, t_self, d as int + 1));
                assert(acc[t_self] as int <= (d as int + 1) * gain_cap());
            }
            k += 1;
        }
        proof {
            assert forall|t: int| 0 <= t < n implies #[trigger] acc[t] as int == finite_dist(
                fv,
                bounds@,
                t,
                d as int + 1,
            ) && #[trigger] acc[t] as int <= (d as int + 1) * gain_cap() by {
                assert(perm_contains(perm@, t));
                let kt = choose|kk: int| 0 <= kk < perm@.len() && #[trigger] perm@[kk] == t;
                if n >= 2 && 1 <= kt < n - 1 {
                } else {
                    lemma_perm_extremes(fv, d as int, perm@, kt);
                    assert(forall|m: int|
                        1 <= m < interior_end ==> #[trigger] perm@[m] as int != t);
                    assert(acc[t] as int == finite_dist(fv, bounds@, t, d as int));
                    assert(is_dim_min(fv, d as int, t) || is_dim_max(fv, d as int, t));
                    assert((d as int) * gain_cap() <= (d as int + 1) * gain_cap()) by (nonlinear_arith);
                }
            }
        }
        d += 1;
    }
    let mut r: Vec<CrowdDist> = Vec::new();
    let mut t: usize = 0;
    while t < n
        invariant
            fits.len() == n,
            bounds.len() == nobj,
            forall|x: int| 0 <= x < n ==> #[trigger] fits[x].len() == nobj,
            fv == views_of(fits@),
            0 <= t <= n,
            acc.len() == n,
            inf.len() == n,
            forall|x: int|
                0 <= x < n ==> #[trigger] acc[x] as int == finite_dist(
                    fv,
                    bounds@,
                    x,
                    nobj as int,
                ),
            forall|x: int| 0 <= x < n ==> #[trigger] inf[x] == is_boundary(fv, nobj as int, x),
            r.len() == t,
            forall|x: int| 0 <= x < t ==> #[trigger] r[x] == crowd_dist_spec(fv, bounds@, x),
        decreases n - t,
    {
        if inf[t] {
            r.push(CrowdDist::Infinite);
        } else {
            r.push(CrowdDist::Finite(acc[t]));
        }
        t += 1;
    }
    r
}

/// Order on crowding-distance values: any finite distance is smaller
/// than the infinite one.
pub open spec fn cd_val_lt(a: CrowdDist, b: CrowdDist) -> bool {
    match (a, b) {
        (CrowdDist::Finite(x), CrowdDist::Finite(y)) => x < y,
        (CrowdDist::Finite(_), CrowdDist::Infinite) => true,
        (CrowdDist::Infinite, _) => false,
    }
}

/// Strict total order on leader indices by crowding distance, ties
/// broken by index.
pub open spec fn dist_lt(dists: Seq<CrowdDist>, i: int, j: int) -> bool {
    cd_val_lt(dists[i], dists[j]) || (dists[i] == dists[j] && i < j)
}

/// A permutation of `0 .. n`, sorted ascending by crowding distance.
pub open spec fn sorted_perm_for_dist(dists: Seq<CrowdDist>, perm: Seq<usize>) -> bool {
    &&& perm.len() == dists.len()
    &&& forall|k: int| 0 <= k < perm.len() ==> #[trigger] perm[k] < dists.len()
    &&& forall|v: int| 0 <= v < dists.len() ==> #[trigger] perm_contains(perm, v)
    &&& forall|k1: int, k2: int|
        #![trigger perm[k1], perm[k2]]
        0 <= k1 < k2 < perm.len() ==> dist_lt(dists, perm[k1] as int, perm[k2] as int)
}

/// Compares two leaders by crowding distance, ties broken by index.
fn dist_pair_lt(dists: &Vec<CrowdDist>, i: usize, j: usize) -> (r: bool)
    requires
        i < dists.len(),
        j < dists.len(),
    ensures
        r == dist_lt(dists@, i as int, j as int),
{
    match (dists[i], dists[j]) {
        (CrowdDist::Finite(x), CrowdDist::Finite(y)) => x < y || (x == y && i < j),
        (CrowdDist::Finite(_), CrowdDist::Infinite) => true,
        (CrowdDist::Infinite, CrowdDist::Finite(_)) => false,
        (CrowdDist::Infinite, CrowdDist::Infinite) => i < j,
    }
}

/// Sorts the leader indices ascending by crowding distance (most
/// crowded first), returning the sorted permutation.
pub fn rank_by_distance(dists: &Vec<CrowdDist>) -> (perm: Vec<usize>)
    ensures
        sorted_perm_for_dist(dists@, perm@),
{
    let n = dists.len();
    let mut perm: Vec<usize> = Vec::new();
    let mut i: usize = 0;
    while i < n
        invariant
            0 <= i <= n,
            perm.len() == i,
            forall|k: int| 0 <= k < i ==> #[trigger] perm[k] == k,
        decreases n - i,
    {
        perm.push(i);
        i += 1;
    }
    proof {
        assert forall|v: int| 0 <= v < n implies #[trigger] perm_contains(perm@, v) by {
            assert(perm@[v] == v);
        }
    }
    let mut a: usize = 0;
    while a < n
        invariant
            dists.len() == n,
            0 <= a <= n,
            perm.len() == n,
            forall|k: int| 0 <= k < n ==> #[trigger] perm[k] < n,
            forall|k1: int, k2: int|
                #![trigger perm[k1], perm[k2]]
                0 <= k1 < k2 < n ==> perm[k1] != perm[k2],
            forall|v: int| 0 <= v < n ==> #[trigger] perm_contains(perm@, v),
            forall|k1: int, k2: int|
                #![trigger perm[k1], perm[k2]]
                0 <= k1 < k2 < a ==> dist_lt(dists@, perm[k1] as int, perm[k2] as int),
            forall|k: int, j: int|
                #![trigger perm[k], perm[j]]
                0 <= k < a && a <= j < n ==> dist_lt(dists@, perm[k] as int, perm[j] as int),
        decreases n - a,
    {
        let mut m: usize = a;
        let mut j: usize = a + 1;
        while j < n
            invariant
                dists.len() == n,
                0 <= a < n,
                a <= m < j,
                a + 1 <= j <= n,
                perm.len() == n,
                forall|k: int| 0 <= k < n ==> #[trigger] perm[k] < n,
                forall|k1: int, k2: int|
                    #![trigger perm[k1], perm[k2]]
                    0 <= k1 < k2 < n ==> perm[k1] != perm[k2],
                forall|t: int|
                    a <= t < j && t != m ==> dist_lt(dists@, perm[m as int] as int,
                    #[trigger] perm[t] as int),
            decreases n - j,
        {
            let pj = perm[j];
            let pm = perm[m];
            if dist_pair_lt(dists, pj, pm) {
                proof {
                    assert forall|t: int| a <= t < j + 1 && t != j implies dist_lt(
                        dists@,
                        perm@[j as int] as int,
                        #[trigger] perm@[t] as int,
                    ) by {
                        if t != m {
                            assert(dist_lt(dists@, pm as int, perm@[t] as int));
                        }
                    }
                }
                m = j;
            } else {
                proof {
                    assert(perm@[m as int] != perm@[j as int]);
                    assert(dist_lt(dists@, pm as int, pj as int));
                }
            }
            j += 1;
        }
        let ghost p0 = perm@;
        let pa = perm[a];
        let pm = perm[m];
        perm.set(a, pm);
        perm.set(m, pa);
        proof {
            assert(perm@[a as int] == p0[m as int] || a == m);
            assert(perm@[m as int] == p0[a as int]);
            assert forall|k: int| 0 <= k < n && k != a as int && k != m as int implies perm@[k]
                == p0[k] by {}
            assert forall|k: int| 0 <= k < n implies #[trigger] perm[k] < n by {
                if k == a as int || k == m as int {
                } else {
                    assert(perm@[k] == p0[k]);
                }
            }
            assert forall|k1: int, k2: int|
                #![trigger perm[k1], perm[k2]]
                0 <= k1 < k2 < n implies perm[k1] != perm[k2] by {
                let v1 = if k1 == a as int { m as int } else if k1 == m as int { a as int } else { k1 };
                let v2 = if k2 == a as int { m as int } else if k2 == m as int { a as int } else { k2 };
                assert(perm@[k1] == p0[v1]);
                assert(perm@[k2] == p0[v2]);
                assert(v1 != v2);
                assert(p0[v1] != p0[v2]);
            }
            assert forall|v: int| 0 <= v < n implies #[trigger] perm_contains(perm@, v) by {
                assert(perm_contains(p0, v));
                let k0 = choose|k: int| 0 <= k < p0.len() && #[trigger] p0[k] == v;
                if k0 == a as int {
                    assert(perm@[m as int] == v);
                } else if k0 == m as int {
                    assert(perm@[a as int] == v);
                } else {
                    assert(perm@[k0] == v);
                }
            }
            assert forall|k1: int, k2: int|
                #![trigger perm[k1], perm[k2]]
                0 <= k1 < k2 < a + 1 implies dist_lt(dists@, perm[k1] as int,
                perm[k2] as int) by {
                assert(k1 < a as int);
                assert(perm@[k1] == p0[k1]);
                if k2 == a as int {
                    assert(perm@[k2] == p0[m as int] || a == m);
                    assert(dist_lt(dists@, p0[k1] as int, p0[m as int] as int));
                } else {
                    assert(perm@[k2] == p0[k2]);
                }
            }
            assert forall|k: int, j: int|
                #![trigger perm[k], perm[j]]
                0 <= k < a + 1 && a + 1 <= j < n implies dist_lt(dists@, perm[k] as int,
                perm[j] as int) by {
                let vj = if j == m as int { a as int } else { j };
                assert(perm@[j] == p0[vj]);
                if k < a as int {
                    assert(perm@[k] == p0[k]);
                    assert(dist_lt(dists@, p0[k] as int, p0[vj] as int));
                } else {
                    assert(perm@[k] == p0[m as int] || a == m);
                    if vj != m as int {
                        assert(dist_lt(dists@, p0[m as int] as int, p0[vj] as int));
                    }
                }
            }
        }
        a += 1;
    }
    perm
}

} // verus!
