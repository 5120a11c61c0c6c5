//! Multi-objective particle swarm: Pareto dominance, front extraction,
//! crowding-distance ranking, weighted leader selection, and the swarm
//! driver.

use crate::pso::HyperParams;
use crate::views_of;
use vstd::prelude::*;

verus! {

/// `x` is at least as good as `y` in every objective; `directions[i]`
/// gives the sense of objective `i` (`true` = maximize).
pub open spec fn at_least_as_good(x: Seq<i64>, y: Seq<i64>, dirs: Seq<bool>) -> bool {
    forall|i: int|
        0 <= i < dirs.len() ==> (if dirs[i] {
            x[i] >= y[i]
        } else {
            x[i] <= y[i]
        })
}

/// `x` is strictly better than `y` in at least one objective.
pub open spec fn better_somewhere(x: Seq<i64>, y: Seq<i64>, dirs: Seq<bool>) -> bool {
    exists|i: int|
        0 <= i < dirs.len() && (if dirs[i] {
            x[i] > y[i]
        } else {
            x[i] < y[i]
        })
}

/// Pareto dominance: at least as good everywhere, strictly better
/// somewhere. Equal vectors never dominate each other.
pub open spec fn dominates_spec(x: Seq<i64>, y: Seq<i64>, dirs: Seq<bool>) -> bool {
    at_least_as_good(x, y, dirs) && better_somewhere(x, y, dirs)
}

/// Dominance is antisymmetric: two fitness vectors never dominate each
/// other at once.
pub proof fn lemma_dominates_antisymmetric(x: Seq<i64>, y: Seq<i64>, dirs: Seq<bool>)
    ensures
        !(dominates_spec(x, y, dirs) && dominates_spec(y, x, dirs)),
{
    if dominates_spec(x, y, dirs) && dominates_spec(y, x, dirs) {
        let i = choose|i: int|
            0 <= i < dirs.len() && (if dirs[i] {
                x[i] > y[i]
            } else {
                x[i] < y[i]
            });
        assert(if dirs[i] {
            y[i] >= x[i]
        } else {
            y[i] <= x[i]
        });
    }
}

/// Decides Pareto dominance of `x` over `y`.
pub fn dominates(x: &Vec<i64>, y: &Vec<i64>, directions: &Vec<bool>) -> (r: bool)
    requires
        x.len() == directions.len(),
        y.len() == directions.len(),
    ensures
        r == dominates_spec(x@, y@, directions@),
{
    let n = directions.len();
    let mut all_at_least_equal_or_better = true;
    let mut dominating_dimension_found = false;
    let mut i: usize = 0;
    while i < n && all_at_least_equal_or_better
        invariant
            x.len() == n,
            y.len() == n,
            directions.len() == n,
            0 <= i <= n,
            all_at_least_equal_or_better ==> forall|k: int|
                0 <= k < i ==> (if directions@[k] {
                    x@[k] >= y@[k]
                } else {
                    x@[k] <= y@[k]
                }),
            !all_at_least_equal_or_better ==> !at_least_as_good(x@, y@, directions@),
            dominating_dimension_found == exists|k: int|
                0 <= k < i && (if directions@[k] {
                    x@[k] > y@[k]
                } else {
                    x@[k] < y@[k]
                }),
        decreases n - i,
    {
        if (directions[i] && x[i] > y[i]) || (!directions[i] && x[i] < y[i]) {
            dominating_dimension_found = true;
        }
        if (directions[i] && x[i] < y[i]) || (!directions[i] && x[i] > y[i]) {
            all_at_least_equal_or_better = false;
        }
        i += 1;
    }
    all_at_least_equal_or_better && dominating_dimension_found
}

/// Candidate `i` is dominated by some other candidate in `fits`.
pub open spec fn is_dominated(fits: Seq<Seq<i64>>, dirs: Seq<bool>, i: int) -> bool {
    exists|j: int| 0 <= j < fits.len() && dominates_spec(fits[j], fits[i], dirs)
}

/// The indices below `n` of the non-dominated candidates, in increasing
/// order.
pub open spec fn front_spec(fits: Seq<Seq<i64>>, dirs: Seq<bool>, n: int) -> Seq<usize>
    decreases n,
{
    if n <= 0 {
        Seq::empty()
    } else {
        front_spec(fits, dirs, n - 1) + (if !is_dominated(fits, dirs, n - 1) {
            seq![(n - 1) as usize]
        } else {
            Seq::empty()
        })
    }
}

/// Every index in the front is an input index, and the front is
/// strictly increasing.
pub proof fn lemma_front_spec_shape(fits: Seq<Seq<i64>>, dirs: Seq<bool>, n: int)
    requires
        n <= usize::MAX as int,
    ensures
        forall|k: int|
            0 <= k < front_spec(fits, dirs, n).len() ==> 0 <= #[trigger] front_spec(
                fits,
                dirs,
                n,
            )[k] < n,
        forall|k1: int, k2: int|
            0 <= k1 < k2 < front_spec(fits, dirs, n).len() ==> front_spec(fits, dirs, n)[k1]
                < front_spec(fits, dirs, n)[k2],
    decreases n,
{
    if n > 0 {
        lemma_front_spec_shape(fits, dirs, n - 1);
        let f1 = front_spec(fits, dirs, n - 1);
        let f = front_spec(fits, dirs, n);
        assert forall|k: int| 0 <= k < f.len() implies 0 <= #[trigger] f[k] < n by {
            if k < f1.len() {
                assert(f[k] == f1[k]);
            } else {
                assert(f[k] == (n - 1) as usize);
            }
        }
        assert forall|k1: int, k2: int| 0 <= k1 < k2 < f.len() implies f[k1] < f[k2] by {
            if k2 < f1.len() {
                assert(f[k1] == f1[k1] && f[k2] == f1[k2]);
            } else {
                assert(f[k1] == f1[k1] && f[k2] == (n - 1) as usize);
                assert(f1[k1] < n - 1);
            }
        }
    }
}

/// Pareto-front soundness: no index in the front is dominated by any
/// input candidate.
pub proof fn lemma_front_sound(fits: Seq<Seq<i64>>, dirs: Seq<bool>, n: int)
    requires
        n <= usize::MAX as int,
    ensures
        forall|k: int|
            0 <= k < front_spec(fits, dirs, n).len() ==> !is_dominated(
                fits,
                dirs,
                #[trigger] front_spec(fits, dirs, n)[k] as int,
            ),
    decreases n,
{
    if n > 0 {
        lemma_front_sound(fits, dirs, n - 1);
        let f1 = front_spec(fits, dirs, n - 1);
        let f = front_spec(fits, dirs, n);
        assert forall|k: int| 0 <= k < f.len() implies !is_dominated(
            fits,
            dirs,
            #[trigger] f[k] as int,
        ) by {
            if k < f1.len() {
                assert(f[k] == f1[k]);
            } else {
                assert(f[k] == (n - 1) as usize);
            }
        }
    }
}

/// Pareto-front completeness: every input index left out of the front
/// is dominated by some input candidate.
pub proof fn lemma_front_complete(fits: Seq<Seq<i64>>, dirs: Seq<bool>, n: int)
    requires
        n <= usize::MAX as int,
    ensures
        forall|i: int|
            0 <= i < n && !is_dominated(fits, dirs, i) ==> front_spec(fits, dirs, n).contains(
                i as usize,
            ),
    decreases n,
{
    if n > 0 {
        lemma_front_complete(fits, dirs, n - 1);
        assert forall|i: int| 0 <= i < n && !is_dominated(fits, dirs, i) implies front_spec(
            fits,
            dirs,
            n,
        ).contains(i as usize) by {
            if i < n - 1 {
                let k = choose|k: int|
                    0 <= k < front_spec(fits, dirs, n - 1).len() && #[trigger] front_spec(
                        fits,
                        dirs,
                        n - 1,
                    )[k] == i as usize;
                assert(front_spec(fits, dirs, n)[k] == i as usize);
            } else {
                let m = front_spec(fits, dirs, n).len();
                assert(front_spec(fits, dirs, n)[m - 1] == i as usize);
            }
        }
    }
}

/// Extracts the Pareto front: the indices of all candidates that no
/// other candidate dominates, in increasing order.
pub fn pareto_front(xs: &Vec<Vec<i64>>, directions: &Vec<bool>) -> (r: Vec<usize>)
    requires
        forall|i: int| 0 <= i < xs.len() ==> #[trigger] xs[i].len() == directions.len(),
    ensures
        r@ == front_spec(views_of(xs@), directions@, xs.len() as int),
{
    let ghost fv = views_of(xs@);
    let n = xs.len();
    let mut front: Vec<usize> = Vec::new();
    let mut i: usize = 0;
    while i < n
        invariant
            xs.len() == n,
            fv == views_of(xs@),
            forall|k: int| 0 <= k < n ==> #[trigger] xs[k].len() == directions.len(),
            0 <= i <= n,
            front@ == front_spec(fv, directions@, i as int),
        decreases n - i,
    {
        let mut is_dom = false;
        let mut j: usize = 0;
        while j < n && !is_dom
            invariant
                xs.len() == n,
                fv == views_of(xs@),
                forall|k: int| 0 <= k < n ==> #[trigger] xs[k].len() == directions.len(),
                0 <= i < n,
                0 <= j <= n,
                is_dom ==> is_dominated(fv, directions@, i as int),
                !is_dom ==> forall|k: int|
                    0 <= k < j ==> !dominates_spec(#[trigger] fv[k], fv[i as int], directions@),
            decreases n - j,
        {
            proof {
                assert(fv[j as int] == xs@[j as int]@ && fv[i as int] == xs@[i as int]@);
            }
            if dominates(&xs[j], &xs[i], directions) {
                is_dom = true;
            }
            j += 1;
        }
        if !is_dom {
            front.push(i);
        }
        i += 1;
    }
    front
}

/// Running the Pareto-front extraction twice on the same input yields
/// the same index set: the front is a function of the fitness vectors
/// and directions alone.
pub proof fn lemma_front_idempotent(
    fits: Seq<Seq<i64>>,
    dirs: Seq<bool>,
    r1: Seq<usize>,
    r2: Seq<usize>,
)
    requires
        r1 == front_spec(fits, dirs, fits.len() as int),
        r2 == front_spec(fits, dirs, fits.len() as int),
    ensures
        r1 == r2,
{
}

/// Nothing dominates itself: equal vectors never dominate each other.
pub proof fn lemma_dominates_irreflexive(x: Seq<i64>, dirs: Seq<bool>)
    ensures
        !dominates_spec(x, x, dirs),
{
    if better_somewhere(x, x, dirs) {
        let i = choose|i: int|
            0 <= i < dirs.len() && (if dirs[i] {
                x[i] > x[i]
            } else {
                x[i] < x[i]
            });
        assert(false);
    }
}

/// Dominance is transitive.
pub proof fn lemma_dominates_transitive(x: Seq<i64>, y: Seq<i64>, z: Seq<i64>, dirs: Seq<bool>)
    requires
        dominates_spec(x, y, dirs),
        dominates_spec(y, z, dirs),
    ensures
        dominates_spec(x, z, dirs),
{
    assert forall|i: int|
        0 <= i < dirs.len() implies (if dirs[i] {
        x[i] >= z[i]
    } else {
        x[i] <= z[i]
    }) by {}
    let i = choose|i: int|
        0 <= i < dirs.len() && (if dirs[i] {
            x[i] > y[i]
        } else {
            x[i] < y[i]
        });
    assert(if dirs[i] {
        x[i] > z[i]
    } else {
        x[i] < z[i]
    });
}

/// Every nonempty candidate pool has a candidate that none of the
/// first `n` candidates dominates.
proof fn lemma_exists_undominated(fits: Seq<Seq<i64>>, dirs: Seq<bool>, n: int)
    requires
        1 <= n <= fits.len(),
    ensures
        exists|i: int|
            #![trigger fits[i]]
            0 <= i < n && (forall|j: int|
                0 <= j < n ==> !dominates_spec(#[trigger] fits[j], fits[i], dirs)),
    decreases n,
{
    if n == 1 {
        lemma_dominates_irreflexive(fits[0], dirs);
        assert(forall|j: int| 0 <= j < 1 ==> !dominates_spec(#[trigger] fits[j], fits[0], dirs));
    } else {
        lemma_exists_undominated(fits, dirs, n - 1);
        let im = choose|i: int|
            #![trigger fits[i]]
            0 <= i < n - 1 && (forall|j: int|
                0 <= j < n - 1 ==> !dominates_spec(#[trigger] fits[j], fits[i], dirs));
        if dominates_spec(fits[n - 1], fits[im], dirs) {
            assert forall|j: int| 0 <= j < n implies !dominates_spec(
                #[trigger] fits[j],
                fits[n - 1],
                dirs,
            ) by {
                if j < n - 1 {
                    if dominates_spec(fits[j], fits[n - 1], dirs) {
                        lemma_dominates_transitive(fits[j], fits[n - 1], fits[im], dirs);
                        assert(false);
                    }
                } else {
                    lemma_dominates_irreflexive(fits[n - 1], dirs);
                }
            }
            assert(0 <= n - 1 < n && (forall|j: int|
                0 <= j < n ==> !dominates_spec(#[trigger] fits[j], fits[n - 1], dirs)));
        } else {
            assert(forall|j: int| 0 <= j < n ==> !dominates_spec(#[trigger] fits[j], fits[im], dirs));
        }
    }
}

/// The Pareto front of a nonempty candidate pool is nonempty.
pub proof fn lemma_front_nonempty(fits: Seq<Seq<i64>>, dirs: Seq<bool>)
    requires
        1 <= fits.len() <= usize::MAX,
    ensures
        front_spec(fits, dirs, fits.len() as int).len() >= 1,
{
    let n = fits.len() as int;
    lemma_exists_undominated(fits, dirs, n);
    let i = choose|i: int|
        #![trigger fits[i]]
        0 <= i < n && (forall|j: int|
            0 <= j < n ==> !dominates_spec(#[trigger] fits[j], fits[i], dirs));
    if is_dominated(fits, dirs, i) {
        let j = choose|j: int| 0 <= j < fits.len() && dominates_spec(fits[j], fits[i], dirs);
        assert(false);
    }
    lemma_front_complete(fits, dirs, n);
    assert(front_spec(fits, dirs, n).contains(i as usize));
}

/// One candidate solution: its position, velocity, last fitness, best
/// fitness seen so far with the position that earned it, and an opaque
/// payload slot the evaluator may fill.
pub struct Particle {
    pub position: Vec<i64>,
    pub velocity: Vec<i64>,
    pub fitness: Vec<i64>,
    pub best_position: Vec<i64>,
    pub best_fitness: Vec<i64>,
    pub payload: Vec<i64>,
}

/// A non-dominated candidate kept as a social-attraction target.
pub struct Leader {
    pub position: Vec<i64>,
    pub fitness: Vec<i64>,
}

/// What the evaluation callback hands back for one particle.
pub struct Evaluation {
    pub fitness: Vec<i64>,
    pub payload: Vec<i64>,
}

/// All of a particle's vectors have their declared dimension and its
/// position lies inside the search bounds.
pub open spec fn particle_wf(
    p: Particle,
    pos_dim: int,
    fitness_dim: int,
    payload_dim: int,
    pos_bounds: Seq<(i64, i64)>,
) -> bool {
    &&& p.position.len() == pos_dim
    &&& p.velocity.len() == pos_dim
    &&& p.fitness.len() == fitness_dim
    &&& p.best_position.len() == pos_dim
    &&& p.best_fitness.len() == fitness_dim
    &&& p.payload.len() == payload_dim
    &&& forall|i: int|
        0 <= i < pos_dim ==> (#[trigger] pos_bounds[i]).0 <= p.position@[i] <= pos_bounds[i].1
}

/// The fitness vectors of a leader set.
pub open spec fn leader_fits(ls: Seq<Leader>) -> Seq<Seq<i64>> {
    ls.map_values(|l: Leader| l.fitness@)
}

/// The position vectors of a leader set.
pub open spec fn leader_positions(ls: Seq<Leader>) -> Seq<Seq<i64>> {
    ls.map_values(|l: Leader| l.position@)
}

/// The fitness vectors of the particle store.
pub open spec fn particle_fits(ps: Seq<Particle>) -> Seq<Seq<i64>> {
    ps.map_values(|p: Particle| p.fitness@)
}

/// The position vectors of the particle store.
pub open spec fn particle_positions(ps: Seq<Particle>) -> Seq<Seq<i64>> {
    ps.map_values(|p: Particle| p.position@)
}

/// The multi-objective swarm: the particle store, the search and
/// objective spaces, and the current leader set with its crowding
/// ranks.
pub struct Swarm {
    pub pos_dim: usize,
    pub pos_bounds: Vec<(i64, i64)>,
    pub fitness_dim: usize,
    pub fitness_bounds: Vec<(i64, i64)>,
    pub pareto_directions: Vec<bool>,
    pub payload_dim: usize,
    pub leaders: Vec<Leader>,
    pub leaders_pos_by_rank: Vec<(usize, Vec<i64>)>,
    pub particles: Vec<Particle>,
}

impl Swarm {
    /// The search- and objective-space description is consistent.
    pub open spec fn config_wf(&self) -> bool {
        &&& self.pos_bounds.len() == self.pos_dim
        &&& self.fitness_bounds.len() == self.fitness_dim
        &&& self.pareto_directions.len() == self.fitness_dim
        &&& crate::bounds_wf(self.pos_bounds@)
        &&& crate::bounds_wf(self.fitness_bounds@)
        &&& 1 <= self.fitness_dim <= 0x1_0000_0000
    }

    /// Two swarms describe the same search problem.
    pub open spec fn same_config(&self, other: &Swarm) -> bool {
        &&& self.pos_dim == other.pos_dim
        &&& self.pos_bounds@ == other.pos_bounds@
        &&& self.fitness_dim == other.fitness_dim
        &&& self.fitness_bounds@ == other.fitness_bounds@
        &&& self.pareto_directions@ == other.pareto_directions@
        &&& self.payload_dim == other.payload_dim
    }

    /// Every particle is well-formed; in particular every position
    /// lies inside the search bounds.
    pub open spec fn particles_wf(&self) -> bool {
        &&& self.particles.len() >= 1
        &&& forall|i: int|
            0 <= i < self.particles.len() ==> particle_wf(
                #[trigger] self.particles@[i],
                self.pos_dim as int,
                self.fitness_dim as int,
                self.payload_dim as int,
                self.pos_bounds@,
            )
    }

    /// The leader set is nonempty, dimensioned, and pairwise
    /// non-dominated.
    pub open spec fn leaders_wf(&self) -> bool {
        &&& self.leaders.len() >= 1
        &&& forall|k: int|
            0 <= k < self.leaders.len() ==> (#[trigger] self.leaders@[k]).position.len()
                == self.pos_dim && self.leaders@[k].fitness.len() == self.fitness_dim
        &&& forall|k1: int, k2: int|
            #![trigger self.leaders@[k1], self.leaders@[k2]]
            0 <= k1 < self.leaders.len() && 0 <= k2 < self.leaders.len() && k1 != k2
                ==> !dominates_spec(
                self.leaders@[k1].fitness@,
                self.leaders@[k2].fitness@,
                self.pareto_directions@,
            )
    }

    /// The ranked leader list carries the ranks `1 ..= L`, in order,
    /// each with a leader's position.
    pub open spec fn ranking_wf(&self) -> bool {
        &&& self.leaders_pos_by_rank.len() == self.leaders.len()
        &&& forall|k: int|
            0 <= k < self.leaders_pos_by_rank.len() ==> (#[trigger] self.leaders_pos_by_rank@[k]).0
                == k + 1 && self.leaders_pos_by_rank@[k].1.len() == self.pos_dim
    }

    /// The swarm invariant.
    pub open spec fn wf(&self) -> bool {
        &&& self.config_wf()
        &&& self.particles_wf()
        &&& self.leaders_wf()
        &&& self.ranking_wf()
    }
}

/// Picks the entry of a rank-weighted list that a draw of `u` selects:
/// entry `k` (carrying rank `k + 1`) owns the `k + 1` values from
/// `k(k+1)/2` up to `(k+1)(k+2)/2`.
pub fn pick_ranked(count: usize, u: u128) -> (k: usize)
    requires
        count >= 1,
        2 * u < (count as int) * (count as int + 1),
    ensures
        k < count,
        (k as int) * (k as int + 1) <= 2 * u < (k as int + 1) * (k as int + 2),
{
    proof {
        lemma_rank_total_bound(count as int);
    }
    let mut k: usize = 0;
    let mut cum: u128 = 0;
    while cum + (k as u128 + 1) <= u
        invariant
            count >= 1,
            2 * u < (count as int) * (count as int + 1),
            (count as int) * (count as int + 1) < 0x1_0000_0000_0000_0000_0000_0000_0000_0000,
            0 <= k < count,
            2 * cum == (k as int) * (k as int + 1),
            cum <= u,
        decreases u - cum,
    {
        proof {
            if k as int == count as int - 1 {
                assert(2 * cum + 2 * (k as int + 1) == (count as int) * (count as int + 1))
                    by (nonlinear_arith)
                    requires
                        2 * cum == (k as int) * (k as int + 1),
                        k as int == count as int - 1,
                ;
                assert(false);
            }
        }
        proof {
            assert(2 * (cum as int + k as int + 1) == (k as int + 1) * (k as int + 2))
                by (nonlinear_arith)
                requires
                    2 * (cum as int) == (k as int) * (k as int + 1),
            ;
        }
        cum = cum + (k as u128 + 1);
        k = k + 1;
    }
    proof {
        assert(2 * (cum as int + k as int + 1) == (k as int + 1) * (k as int + 2))
            by (nonlinear_arith)
            requires
                2 * (cum as int) == (k as int) * (k as int + 1),
        ;
    }
    k
}

/// The doubled sum of the ranks `1 ..= n` fits in 128 bits.
proof fn lemma_rank_total_bound(n: int)
    requires
        0 <= n <= 0xffff_ffff_ffff_ffff,
    ensures
        n * (n + 1) < 0x1_0000_0000_0000_0000_0000_0000_0000_0000,
        n >= 1 ==> n * (n + 1) >= 2,
        (n * (n + 1)) % 2 == 0,
{
    let h = n / 2;
    if n % 2 == 0 {
        assert(n == 2 * h);
        assert(n * (n + 1) == 2 * (h * (n + 1))) by (nonlinear_arith)
            requires
                n == 2 * h,
        ;
        assert((2 * (h * (n + 1))) % 2 == 0) by (nonlinear_arith);
    } else {
        assert(n + 1 == 2 * (h + 1));
        assert(n * (n + 1) == 2 * (n * (h + 1))) by (nonlinear_arith)
            requires
                n + 1 == 2 * (h + 1),
        ;
        assert((2 * (n * (h + 1))) % 2 == 0) by (nonlinear_arith);
    }
    assert(n * (n + 1) <= 0xffff_ffff_ffff_ffff * 0x1_0000_0000_0000_0000) by (nonlinear_arith)
        requires
            0 <= n <= 0xffff_ffff_ffff_ffff,
    ;
    if n >= 1 {
        assert(n * (n + 1) >= 2) by (nonlinear_arith)
            requires
                n >= 1,
        ;
    }
}

/// The draw `u` falls into the weight slot of entry `k`: entry `k`
/// owns the `k + 1` values from `k(k+1)/2` up to `(k+1)(k+2)/2`.
pub open spec fn picks_slot(u: int, k: int, count: int) -> bool {
    &&& 0 <= u
    &&& 2 * u < count * (count + 1)
    &&& 0 <= k < count
    &&& k * (k + 1) <= 2 * u < (k + 1) * (k + 2)
}

impl Swarm {
    /// Weighted-random choice of the next leader to follow: entry `k` of
    /// the ranked list is drawn with probability `(k + 1) / s`, so less
    /// crowded leaders (higher rank) are preferred.
    pub fn select_next_leader(leaders: &Vec<(usize, Vec<i64>)>, s: u128) -> (r: &Vec<i64>)
        requires
            leaders.len() >= 1,
            2 * s == (leaders.len() as int) * (leaders.len() as int + 1),
        ensures
            exists|u: int, k: int|
                #![trigger picks_slot(u, k, leaders.len() as int)]
                picks_slot(u, k, leaders.len() as int) && r@ == leaders@[k].1@,
            exists|k: int| 0 <= k < leaders.len() && r@ == (#[trigger] leaders@[k]).1@,
    {
        proof {
            lemma_rank_total_bound(leaders.len() as int);
        }
        let u = crate::rng::rand_u128(0, s - 1);
        let k = pick_ranked(leaders.len(), u);
        proof {
            assert(picks_slot(u as int, k as int, leaders.len() as int));
        }
        &leaders[k].1
    }

    /// After evaluation, a particle's personal best is replaced by its
    /// current position and fitness unless the old personal best
    /// dominates the new fitness: ties and mutually non-dominated
    /// fitnesses favour recency.
    fn set_personal_bests(&mut self)
        requires
            old(self).config_wf(),
            old(self).particles_wf(),
        ensures
            final(self).same_config(old(self)),
            final(self).config_wf(),
            final(self).leaders@ == old(self).leaders@,
            final(self).leaders_pos_by_rank@ == old(self).leaders_pos_by_rank@,
            final(self).particles.len() == old(self).particles.len(),
            final(self).particles_wf(),
            forall|i: int|
                0 <= i < final(self).particles.len() ==> {
                    let po = old(self).particles@[i];
                    let pn = #[trigger] final(self).particles@[i];
                    &&& pn.position@ == po.position@
                    &&& pn.velocity@ == po.velocity@
                    &&& pn.fitness@ == po.fitness@
                    &&& pn.payload@ == po.payload@
                    &&& if dominates_spec(
                        po.best_fitness@,
                        po.fitness@,
                        old(self).pareto_directions@,
                    ) {
                        pn.best_fitness@ == po.best_fitness@ && pn.best_position@
                            == po.best_position@
                    } else {
                        pn.best_fitness@ == po.fitness@ && pn.best_position@ == po.position@
                    }
                },
    {
        let n = self.particles.len();
        let mut out: Vec<Particle> = Vec::new();
        let mut i: usize = 0;
        while i < n
            invariant
                *self == *old(self),
                old(self).config_wf(),
                old(self).particles_wf(),
                self.particles.len() == n,
                0 <= i <= n,
                out.len() == i,
                forall|t: int|
                    0 <= t < i ==> {
                        let po = old(self).particles@[t];
                        let pn = #[trigger] out@[t];
                        &&& pn.position@ == po.position@
                        &&& pn.velocity@ == po.velocity@
                        &&& pn.fitness@ == po.fitness@
                        &&& pn.payload@ == po.payload@
                        &&& if dominates_spec(
                            po.best_fitness@,
                            po.fitness@,
                            old(self).pareto_directions@,
                        ) {
                            pn.best_fitness@ == po.best_fitness@ && pn.best_position@
                                == po.best_position@
                        } else {
                            pn.best_fitness@ == po.fitness@ && pn.best_position@ == po.position@
                        }
                    },
            decreases n - i,
        {
            let p = &self.particles[i];
            let keeps = dominates(&p.best_fitness, &p.fitness, &self.pareto_directions);
            let particle = if keeps {
                Particle {
                    position: crate::copy_vec(&p.position),
                    velocity: crate::copy_vec(&p.velocity),
                    fitness: crate::copy_vec(&p.fitness),
                    best_position: crate::copy_vec(&p.best_position),
                    best_fitness: crate::copy_vec(&p.best_fitness),
                    payload: crate::copy_vec(&p.payload),
                }
            } else {
                Particle {
                    position: crate::copy_vec(&p.position),
                    velocity: crate::copy_vec(&p.velocity),
                    fitness: crate::copy_vec(&p.fitness),
                    best_position: crate::copy_vec(&p.position),
                    best_fitness: crate::copy_vec(&p.fitness),
                    payload: crate::copy_vec(&p.payload),
                }
            };
            out.push(particle);
            i += 1;
        }
        self.particles = out;
    }

    /// Installs the evaluator's output: particle `i` gets fitness and
    /// payload `evals[i]`. Fails, changing nothing, unless there is
    /// exactly one well-dimensioned evaluation per particle.
    pub fn apply_evaluations(&mut self, evals: &Vec<Evaluation>) -> (r: Result<(), crate::SwarmError>)
        requires
            old(self).config_wf(),
            old(self).particles_wf(),
        ensures
            final(self).same_config(old(self)),
            final(self).config_wf(),
            final(self).leaders@ == old(self).leaders@,
            final(self).leaders_pos_by_rank@ == old(self).leaders_pos_by_rank@,
            final(self).particles.len() == old(self).particles.len(),
            final(self).particles_wf(),
            r == Ok::<(), crate::SwarmError>(()) <==> (evals.len() == old(self).particles.len()
                && forall|i: int|
                0 <= i < evals.len() ==> (#[trigger] evals@[i]).fitness.len()
                    == old(self).fitness_dim && evals@[i].payload.len() == old(self).payload_dim),
            r != Ok::<(), crate::SwarmError>(()) ==> r == Err::<(), crate::SwarmError>(
                crate::SwarmError::EvaluationMismatch,
            ) && final(self).particles@ == old(self).particles@,
            r == Ok::<(), crate::SwarmError>(()) ==> forall|i: int|
                0 <= i < final(self).particles.len() ==> {
                    let po = old(self).particles@[i];
                    let pn = #[trigger] final(self).particles@[i];
                    &&& pn.position@ == po.position@
                    &&& pn.velocity@ == po.velocity@
                    &&& pn.best_position@ == po.best_position@
                    &&& pn.best_fitness@ == po.best_fitness@
                    &&& pn.fitness@ == evals@[i].fitness@
                    &&& pn.payload@ == evals@[i].payload@
                },
    {
        let n = self.particles.len();
        if evals.len() != n {
            return Err(crate::SwarmError::EvaluationMismatch);
        }
        let mut i: usize = 0;
        while i < n
            invariant
                *self == *old(self),
                old(self).config_wf(),
                old(self).particles_wf(),
                self.particles.len() == n,
                evals.len() == n,
                0 <= i <= n,
                forall|t: int|
                    0 <= t < i ==> (#[trigger] evals@[t]).fitness.len() == self.fitness_dim
                        && evals@[t].payload.len() == self.payload_dim,
            decreases n - i,
        {
            if evals[i].fitness.len() != self.fitness_dim || evals[i].payload.len()
                != self.payload_dim {
                return Err(crate::SwarmError::EvaluationMismatch);
            }
            i += 1;
        }
        let mut out: Vec<Particle> = Vec::new();
        let mut i: usize = 0;
        while i < n
            invariant
                *self == *old(self),
                old(self).config_wf(),
                old(self).particles_wf(),
                self.particles.len() == n,
                evals.len() == n,
                forall|t: int|
                    0 <= t < n ==> (#[trigger] evals@[t]).fitness.len() == self.fitness_dim
                        && evals@[t].payload.len() == self.payload_dim,
                0 <= i <= n,
                out.len() == i,
                forall|t: int|
                    0 <= t < i ==> {
                        let po = old(self).particles@[t];
                        let pn = #[trigger] out@[t];
                        &&& pn.position@ == po.position@
                        &&& pn.velocity@ == po.velocity@
                        &&& pn.best_position@ == po.best_position@
                        &&& pn.best_fitness@ == po.best_fitness@
                        &&& pn.fitness@ == evals@[t].fitness@
                        &&& pn.payload@ == evals@[t].payload@
                    },
            decreases n - i,
        {
            let p = &self.particles[i];
            let particle = Particle {
                position: crate::copy_vec(&p.position),
                velocity: crate::copy_vec(&p.velocity),
                fitness: crate::copy_vec(&evals[i].fitness),
                best_position: crate::copy_vec(&p.best_position),
                best_fitness: crate::copy_vec(&p.best_fitness),
                payload: crate::copy_vec(&evals[i].payload),
            };
            out.push(particle);
            i += 1;
        }
        self.particles = out;
        Ok(())
    }
}

/// The crowding distances of a leader set under the given objective
/// bounds.
pub open spec fn leader_dists(ls: Seq<Leader>, fb: Seq<(i64, i64)>) -> Seq<crate::crowding::CrowdDist> {
    Seq::new(
        ls.len(),
        |i: int| crate::crowding::crowd_dist_spec(leader_fits(ls), fb, i),
    )
}

/// The swarm's leader set is exactly the Pareto front of the previous
/// leader set together with the swarm's current particles.
pub open spec fn leaders_from(s: Swarm, prev: Seq<Leader>) -> bool {
    let cand_f = leader_fits(prev) + particle_fits(s.particles@);
    let cand_p = leader_positions(prev) + particle_positions(s.particles@);
    let front = front_spec(cand_f, s.pareto_directions@, cand_f.len() as int);
    &&& s.leaders.len() == front.len()
    &&& forall|k: int|
        0 <= k < front.len() ==> (#[trigger] s.leaders@[k]).fitness@ == cand_f[front[k] as int]
            && s.leaders@[k].position@ == cand_p[front[k] as int]
}

/// The swarm's ranked list orders its leaders ascending by crowding
/// distance: the entry of rank `k + 1` holds the position of the
/// leader at place `k` of that order.
pub open spec fn ranking_from(s: Swarm) -> bool {
    exists|perm: Seq<usize>|
        #![trigger crate::crowding::sorted_perm_for_dist(leader_dists(s.leaders@, s.fitness_bounds@), perm)]
        crate::crowding::sorted_perm_for_dist(
            leader_dists(s.leaders@, s.fitness_bounds@),
            perm,
        ) && forall|k: int|
            0 <= k < perm.len() ==> (#[trigger] s.leaders_pos_by_rank@[k]).1@
                == s.leaders@[perm[k] as int].position@
}

impl Swarm {
    /// Recomputes the leader set from scratch: the Pareto front of the
    /// previous leaders together with the current particles.
    fn find_and_set_leaders(&mut self)
        requires
            old(self).config_wf(),
            old(self).particles_wf(),
            forall|k: int|
                0 <= k < old(self).leaders.len() ==> (#[trigger] old(self).leaders@[k]).position.len()
                    == old(self).pos_dim && old(self).leaders@[k].fitness.len() == old(
                    self,
                ).fitness_dim,
        ensures
            final(self).same_config(old(self)),
            final(self).config_wf(),
            final(self).particles@ == old(self).particles@,
            final(self).particles_wf(),
            final(self).leaders_pos_by_rank@ == old(self).leaders_pos_by_rank@,
            final(self).leaders_wf(),
            leaders_from(*final(self), old(self).leaders@),
    {
        let ghost gcf = leader_fits(old(self).leaders@) + particle_fits(old(self).particles@);
        let ghost gcp = leader_positions(old(self).leaders@) + particle_positions(
            old(self).particles@,
        );
        let n_lead = self.leaders.len();
        let n_part = self.particles.len();
        let mut cand_f: Vec<Vec<i64>> = Vec::new();
        let mut cand_p: Vec<Vec<i64>> = Vec::new();
        let mut i: usize = 0;
        while i < n_lead
            invariant
                *self == *old(self),
                old(self).config_wf(),
                old(self).particles_wf(),
                forall|k: int|
                    0 <= k < old(self).leaders.len() ==> (#[trigger] old(
                        self,
                    ).leaders@[k]).position.len() == old(self).pos_dim && old(
                        self,
                    ).leaders@[k].fitness.len() == old(self).fitness_dim,
                self.leaders.len() == n_lead,
                self.particles.len() == n_part,
                gcf == leader_fits(old(self).leaders@) + particle_fits(old(self).particles@),
                gcp == leader_positions(old(self).leaders@) + particle_positions(
                    old(self).particles@,
                ),
                0 <= i <= n_lead,
                cand_f.len() == i,
                cand_p.len() == i,
                forall|t: int| 0 <= t < i ==> (#[trigger] cand_f@[t])@ == gcf[t],
                forall|t: int| 0 <= t < i ==> (#[trigger] cand_p@[t])@ == gcp[t],
                forall|t: int| 0 <= t < i ==> (#[trigger] cand_f@[t]).len() == self.fitness_dim,
                forall|t: int| 0 <= t < i ==> (#[trigger] cand_p@[t]).len() == self.pos_dim,
            decreases n_lead - i,
        {
            cand_f.push(crate::copy_vec(&self.leaders[i].fitness));
            cand_p.push(crate::copy_vec(&self.leaders[i].position));
            i += 1;
        }
        let mut j: usize = 0;
        while j < n_part
            invariant
                *self == *old(self),
                old(self).config_wf(),
                old(self).particles_wf(),
                self.leaders.len() == n_lead,
                self.particles.len() == n_part,
                gcf == leader_fits(old(self).leaders@) + particle_fits(old(self).particles@),
                gcp == leader_positions(old(self).leaders@) + particle_positions(
                    old(self).particles@,
                ),
                0 <= j <= n_part,
                cand_f.len() == n_lead + j,
                cand_p.len() == n_lead + j,
                forall|t: int| 0 <= t < n_lead + j ==> (#[trigger] cand_f@[t])@ == gcf[t],
                forall|t: int| 0 <= t < n_lead + j ==> (#[trigger] cand_p@[t])@ == gcp[t],
                forall|t: int|
                    0 <= t < n_lead + j ==> (#[trigger] cand_f@[t]).len() == self.fitness_dim,
                forall|t: int| 0 <= t < n_lead + j ==> (#[trigger] cand_p@[t]).len() == self.pos_dim,
            decreases n_part - j,
        {
            cand_f.push(crate::copy_vec(&self.particles[j].fitness));
            cand_p.push(crate::copy_vec(&self.particles[j].position));
            j += 1;
        }
        proof {
            assert(views_of(cand_f@) =~= gcf);
        }
        let front = pareto_front(&cand_f, &self.pareto_directions);
        proof {
            lemma_front_spec_shape(gcf, self.pareto_directions@, cand_f.len() as int);
            lemma_front_sound(gcf, self.pareto_directions@, cand_f.len() as int);
            lemma_front_nonempty(gcf, self.pareto_directions@);
        }
        let ghost gfront = front_spec(gcf, old(self).pareto_directions@, gcf.len() as int);
        let m = front.len();
        let mut new_leaders: Vec<Leader> = Vec::new();
        let mut k: usize = 0;
        while k < m
            invariant
                *self == *old(self),
                old(self).config_wf(),
                old(self).particles_wf(),
                self.leaders.len() == n_lead,
                self.particles.len() == n_part,
                cand_f.len() == n_lead + n_part,
                cand_p.len() == n_lead + n_part,
                forall|t: int| 0 <= t < cand_f.len() ==> (#[trigger] cand_f@[t])@ == gcf[t],
                forall|t: int| 0 <= t < cand_p.len() ==> (#[trigger] cand_p@[t])@ == gcp[t],
                forall|t: int|
                    0 <= t < cand_f.len() ==> (#[trigger] cand_f@[t]).len() == self.fitness_dim,
                forall|t: int|
                    0 <= t < cand_p.len() ==> (#[trigger] cand_p@[t]).len() == self.pos_dim,
                gfront == front_spec(gcf, old(self).pareto_directions@, gcf.len() as int),
                front@ == gfront,
                m == front.len(),
                forall|t: int| 0 <= t < m ==> 0 <= #[trigger] gfront[t] < cand_f.len(),
                0 <= k <= m,
                new_leaders.len() == k,
                forall|t: int|
                    0 <= t < k ==> (#[trigger] new_leaders@[t]).fitness@ == gcf[gfront[t] as int]
                        && new_leaders@[t].position@ == gcp[gfront[t] as int],
                forall|t: int|
                    0 <= t < k ==> (#[trigger] new_leaders@[t]).fitness.len() == self.fitness_dim
                        && new_leaders@[t].position.len() == self.pos_dim,
            decreases m - k,
        {
            let idx = front[k];
            let leader = Leader {
                position: crate::copy_vec(&cand_p[idx]),
                fitness: crate::copy_vec(&cand_f[idx]),
            };
            new_leaders.push(leader);
            k += 1;
        }
        self.leaders = new_leaders;
        proof {
            assert forall|k1: int, k2: int|
                #![trigger self.leaders@[k1], self.leaders@[k2]]
                0 <= k1 < self.leaders.len() && 0 <= k2 < self.leaders.len() && k1
                    != k2 implies !dominates_spec(
                self.leaders@[k1].fitness@,
                self.leaders@[k2].fitness@,
                self.pareto_directions@,
            ) by {
                if dominates_spec(
                    self.leaders@[k1].fitness@,
                    self.leaders@[k2].fitness@,
                    self.pareto_directions@,
                ) {
                    assert(dominates_spec(
                        gcf[gfront[k1] as int],
                        gcf[gfront[k2] as int],
                        self.pareto_directions@,
                    ));
                    assert(is_dominated(gcf, self.pareto_directions@, gfront[k2] as int));
                    assert(false);
                }
            }
        }
    }

    /// Recomputes the crowding-distance ranking of the leader set:
    /// rank 1 is the most crowded leader, rank `L` the least crowded.
    fn calc_crowding_distances(&mut self)
        requires
            old(self).config_wf(),
            old(self).leaders_wf(),
        ensures
            final(self).same_config(old(self)),
            final(self).config_wf(),
            final(self).particles@ == old(self).particles@,
            final(self).leaders@ == old(self).leaders@,
            final(self).leaders_wf(),
            final(self).ranking_wf(),
            ranking_from(*final(self)),
    {
        let ghost lf = leader_fits(old(self).leaders@);
        let ghost ds = leader_dists(old(self).leaders@, old(self).fitness_bounds@);
        let n = self.leaders.len();
        let mut lfits: Vec<Vec<i64>> = Vec::new();
        let mut i: usize = 0;
        while i < n
            invariant
                *self == *old(self),
                old(self).config_wf(),
                old(self).leaders_wf(),
                self.leaders.len() == n,
                lf == leader_fits(old(self).leaders@),
                0 <= i <= n,
                lfits.len() == i,
                forall|t: int| 0 <= t < i ==> (#[trigger] lfits@[t])@ == lf[t],
                forall|t: int| 0 <= t < i ==> (#[trigger] lfits@[t]).len() == self.fitness_dim,
            decreases n - i,
        {
            lfits.push(crate::copy_vec(&self.leaders[i].fitness));
            i += 1;
        }
        proof {
            assert(views_of(lfits@) =~= lf);
        }
        let dists = crate::crowding::crowding_distances(&lfits, &self.fitness_bounds);
        proof {
            assert(dists@ =~= ds);
        }
        let perm = crate::crowding::rank_by_distance(&dists);
        let mut ranked: Vec<(usize, Vec<i64>)> = Vec::new();
        let mut k: usize = 0;
        while k < n
            invariant
                *self == *old(self),
                old(self).config_wf(),
                old(self).leaders_wf(),
                self.leaders.len() == n,
                lf == leader_fits(old(self).leaders@),
                dists.len() == n,
                dists@ == ds,
                crate::crowding::sorted_perm_for_dist(ds, perm@),
                0 <= k <= n,
                ranked.len() == k,
                forall|t: int|
                    0 <= t < k ==> (#[trigger] ranked@[t]).0 == t + 1 && ranked@[t].1@
                        == old(self).leaders@[perm@[t] as int].position@ && ranked@[t].1.len()
                        == self.pos_dim,
            decreases n - k,
        {
            let idx = perm[k];
            let pos = crate::copy_vec(&self.leaders[idx].position);
            ranked.push((k + 1, pos));
            k += 1;
        }
        self.leaders_pos_by_rank = ranked;
        proof {
            assert(self.leaders@ == old(self).leaders@);
            assert(leader_dists(self.leaders@, self.fitness_bounds@) == ds);
            assert(crate::crowding::sorted_perm_for_dist(
                leader_dists(self.leaders@, self.fitness_bounds@),
                perm@,
            ));
            assert(ranking_from(*self));
        }
    }
}

/// One dimension of one particle's update, with the unit draws `r1`,
/// `r2` and the index `k` of the leader it was attracted to.
/// One particle's whole update: for some ranked leader, every
/// dimension took the canonical PSO step toward that leader's
/// position, with fresh unit draws per dimension.
pub open spec fn particle_stepped(
    ranked: Seq<(usize, Vec<i64>)>,
    hp: HyperParams,
    pos_bounds: Seq<(i64, i64)>,
    pos_dim: int,
    po: Particle,
    pn: Particle,
) -> bool {
    exists|k: int|
        #![trigger ranked[k]]
        0 <= k < ranked.len() && (forall|t: int|
            0 <= t < pos_dim ==> #[trigger] crate::pso::stepped_dim1(
                hp,
                po.velocity@[t],
                po.position@[t],
                po.best_position@[t],
                ranked[k].1@[t],
                pos_bounds[t].0,
                pos_bounds[t].1,
                pn.velocity@[t],
                pn.position@[t],
            ))
}

impl Swarm {
    /// Moves every particle: one ranked leader is drawn by weight for
    /// the particle, then in each dimension the velocity gains the
    /// inertia term plus random cognitive and social pulls (toward the
    /// personal best and that leader), and the position takes the
    /// velocity step, hard-clamped into bounds.
    pub fn update_position(&mut self, hp: &HyperParams)
        requires
            old(self).wf(),
            hp.wf(),
        ensures
            final(self).same_config(old(self)),
            final(self).wf(),
            final(self).leaders@ == old(self).leaders@,
            final(self).leaders_pos_by_rank@ == old(self).leaders_pos_by_rank@,
            final(self).particles.len() == old(self).particles.len(),
            forall|i: int|
                0 <= i < final(self).particles.len() ==> {
                    let po = old(self).particles@[i];
                    let pn = #[trigger] final(self).particles@[i];
                    &&& pn.fitness@ == po.fitness@
                    &&& pn.best_position@ == po.best_position@
                    &&& pn.best_fitness@ == po.best_fitness@
                    &&& pn.payload@ == po.payload@
                    &&& particle_stepped(
                        old(self).leaders_pos_by_rank@,
                        *hp,
                        old(self).pos_bounds@,
                        old(self).pos_dim as int,
                        po,
                        pn,
                    )
                },
    {
        let n = self.particles.len();
        let dim = self.pos_dim;
        let l_count = self.leaders_pos_by_rank.len();
        proof {
            lemma_rank_total_bound(l_count as int);
        }
        let s: u128 = (l_count as u128) * (l_count as u128 + 1) / 2;
        proof {
            assert(2 * s == (l_count as int) * (l_count as int + 1));
        }
        let mut out: Vec<Particle> = Vec::new();
        let mut i: usize = 0;
        while i < n
            invariant
                *self == *old(self),
                old(self).wf(),
                hp.wf(),
                self.particles.len() == n,
                self.pos_dim == dim,
                self.leaders_pos_by_rank.len() == l_count,
                l_count >= 1,
                2 * s == (l_count as int) * (l_count as int + 1),
                0 <= i <= n,
                out.len() == i,
                forall|x: int|
                    0 <= x < i ==> particle_wf(
                        #[trigger] out@[x],
                        self.pos_dim as int,
                        self.fitness_dim as int,
                        self.payload_dim as int,
                        self.pos_bounds@,
                    ),
                forall|x: int|
                    0 <= x < i ==> {
                        let po = old(self).particles@[x];
                        let pn = #[trigger] out@[x];
                        &&& pn.fitness@ == po.fitness@
                        &&& pn.best_position@ == po.best_position@
                        &&& pn.best_fitness@ == po.best_fitness@
                        &&& pn.payload@ == po.payload@
                        &&& particle_stepped(
                            old(self).leaders_pos_by_rank@,
                            *hp,
                            old(self).pos_bounds@,
                            old(self).pos_dim as int,
                            po,
                            pn,
                        )
                    },
            decreases n - i,
        {
            let old_pos = crate::copy_vec(&self.particles[i].position);
            let old_vel = crate::copy_vec(&self.particles[i].velocity);
            let old_best = crate::copy_vec(&self.particles[i].best_position);
            let lead = crate::copy_vec(Swarm::select_next_leader(&self.leaders_pos_by_rank, s));
            let ghost k0 = choose|k: int|
                0 <= k < self.leaders_pos_by_rank@.len() && lead@ == (
                #[trigger] self.leaders_pos_by_rank@[k]).1@;
            let mut new_vel: Vec<i64> = Vec::new();
            let mut new_pos: Vec<i64> = Vec::new();
            let mut t: usize = 0;
            while t < dim
                invariant
                    *self == *old(self),
                    old(self).wf(),
                    hp.wf(),
                    self.particles.len() == n,
                    self.pos_dim == dim,
                    self.leaders_pos_by_rank.len() == l_count,
                    0 <= i < n,
                    old_pos@ == old(self).particles@[i as int].position@,
                    old_vel@ == old(self).particles@[i as int].velocity@,
                    old_best@ == old(self).particles@[i as int].best_position@,
                    old_pos.len() == dim,
                    old_vel.len() == dim,
                    old_best.len() == dim,
                    0 <= k0 < l_count,
                    lead@ == old(self).leaders_pos_by_rank@[k0].1@,
                    lead.len() == dim,
                    0 <= t <= dim,
                    new_vel.len() == t,
                    new_pos.len() == t,
                    forall|u: int|
                        0 <= u < t ==> self.pos_bounds@[u].0 <= #[trigger] new_pos@[u]
                            <= self.pos_bounds@[u].1,
                    forall|u: int|
                        0 <= u < t ==> #[trigger] crate::pso::stepped_dim1(
                            *hp,
                            old_vel@[u],
                            old_pos@[u],
                            old_best@[u],
                            old(self).leaders_pos_by_rank@[k0].1@[u],
                            old(self).pos_bounds@[u].0,
                            old(self).pos_bounds@[u].1,
                            new_vel@[u],
                            new_pos@[u],
                        ),
                decreases dim - t,
            {
                let r1 = crate::rng::rand_i64(0, crate::SCALE);
                let r2 = crate::rng::rand_i64(0, crate::SCALE);
                let lo = self.pos_bounds[t].0;
                let hi = self.pos_bounds[t].1;
                let step = crate::pso::step_dim(
                    old_vel[t],
                    old_pos[t],
                    old_best[t],
                    lead[t],
                    hp,
                    r1,
                    r2,
                    lo,
                    hi,
                );
                new_vel.push(step.0);
                new_pos.push(step.1);
                proof {
                    assert(crate::pso::dim_step1(
                        *hp,
                        old_vel@[t as int],
                        old_pos@[t as int],
                        old_best@[t as int],
                        old(self).leaders_pos_by_rank@[k0].1@[t as int],
                        old(self).pos_bounds@[t as int].0,
                        old(self).pos_bounds@[t as int].1,
                        new_vel@[t as int],
                        new_pos@[t as int],
                        r1 as int,
                        r2 as int,
                    ));
                }
                t += 1;
            }
            let particle = Particle {
                position: new_pos,
                velocity: new_vel,
                fitness: crate::copy_vec(&self.particles[i].fitness),
                best_position: crate::copy_vec(&self.particles[i].best_position),
                best_fitness: crate::copy_vec(&self.particles[i].best_fitness),
                payload: crate::copy_vec(&self.particles[i].payload),
            };
            out.push(particle);
            proof {
                assert(old(self).leaders_pos_by_rank@[k0] == old(self).leaders_pos_by_rank@[k0]);
                assert(particle_stepped(
                    old(self).leaders_pos_by_rank@,
                    *hp,
                    old(self).pos_bounds@,
                    old(self).pos_dim as int,
                    old(self).particles@[i as int],
                    out@[i as int],
                ));
            }
            i += 1;
        }
        self.particles = out;
    }
}

/// `e` is an output the evaluation callback `f` could have produced
/// for (a copy of) the particle's position.
pub open spec fn eval_for<F: Fn(Vec<i64>) -> Evaluation>(f: F, p: Particle, e: Evaluation) -> bool {
    exists|xs: Vec<i64>| xs@ == p.position@ && #[trigger] call_ensures(f, (xs,), e)
}

/// The particle's fitness and payload are an output of the evaluation
/// callback `f` on (a copy of) the particle's own position.
pub open spec fn evaluated_at<F: Fn(Vec<i64>) -> Evaluation>(f: F, p: Particle) -> bool {
    exists|xs: Vec<i64>, ev: Evaluation|
        xs@ == p.position@ && #[trigger] call_ensures(f, (xs,), ev) && p.fitness@ == ev.fitness@
            && p.payload@ == ev.payload@
}

/// The worst value each objective's bounds allow, per its direction.
pub open spec fn pessimistic_seed(fitness_bounds: Seq<(i64, i64)>, dirs: Seq<bool>) -> Seq<i64> {
    Seq::new(
        fitness_bounds.len(),
        |d: int|
            if dirs[d] {
                fitness_bounds[d].0
            } else {
                fitness_bounds[d].1
            },
    )
}

impl Swarm {
    /// One generation's bookkeeping after evaluation: update the
    /// personal bests, recompute the leader set as the Pareto front of
    /// the previous leaders and the current particles, and recompute
    /// the crowding ranking. Public so that a caller evaluating a
    /// whole generation itself — for instance in parallel — can drive
    /// the swarm phase by phase: `update_position`, evaluate,
    /// `apply_evaluations`, then this.
    pub fn finish_generation(&mut self)
        requires
            old(self).config_wf(),
            old(self).particles_wf(),
            forall|k: int|
                0 <= k < old(self).leaders.len() ==> (#[trigger] old(self).leaders@[k]).position.len()
                    == old(self).pos_dim && old(self).leaders@[k].fitness.len() == old(
                    self,
                ).fitness_dim,
        ensures
            final(self).same_config(old(self)),
            final(self).wf(),
            final(self).particles.len() == old(self).particles.len(),
            forall|i: int|
                0 <= i < final(self).particles.len() ==> {
                    let po = old(self).particles@[i];
                    let pn = #[trigger] final(self).particles@[i];
                    &&& pn.position@ == po.position@
                    &&& pn.velocity@ == po.velocity@
                    &&& pn.fitness@ == po.fitness@
                    &&& pn.payload@ == po.payload@
                    &&& if dominates_spec(
                        po.best_fitness@,
                        po.fitness@,
                        old(self).pareto_directions@,
                    ) {
                        pn.best_fitness@ == po.best_fitness@ && pn.best_position@
                            == po.best_position@
                    } else {
                        pn.best_fitness@ == po.fitness@ && pn.best_position@ == po.position@
                    }
                },
            leaders_from(*final(self), old(self).leaders@),
            ranking_from(*final(self)),
    {
        self.set_personal_bests();
        self.find_and_set_leaders();
        self.calc_crowding_distances();
    }
}

impl Swarm {
    /// Builds a swarm: every particle gets a uniformly random position
    /// inside the bounds, zero velocity, a personal best seeded at the
    /// objectives' pessimistic extremes, and a first evaluation by
    /// `f`; then the first leader set and crowding ranking are
    /// computed. Fails only if `f` hands back wrongly dimensioned
    /// fitness or payload values. A caller with a per-generation
    /// observer invokes it on the returned swarm, which is in its
    /// first observable state.
    pub fn new<F: Fn(Vec<i64>) -> Evaluation>(
        size: usize,
        pos_dim: usize,
        pos_bounds: Vec<(i64, i64)>,
        fitness_dim: usize,
        fitness_bounds: Vec<(i64, i64)>,
        pareto_directions: Vec<bool>,
        payload_dim: usize,
        f: &F,
    ) -> (r: Result<Swarm, crate::SwarmError>)
        requires
            size >= 1,
            pos_bounds.len() == pos_dim,
            fitness_bounds.len() == fitness_dim,
            pareto_directions.len() == fitness_dim,
            crate::bounds_wf(pos_bounds@),
            crate::bounds_wf(fitness_bounds@),
            1 <= fitness_dim <= 0x1_0000_0000,
            forall|p: Vec<i64>| p.len() == pos_dim ==> #[trigger] call_requires(*f, (p,)),
        ensures
            forall|s: Swarm|
                r == Ok::<Swarm, crate::SwarmError>(s) ==> s.wf() && s.particles.len() == size
                    && s.pos_dim == pos_dim && s.pos_bounds@ == pos_bounds@ && s.fitness_dim
                    == fitness_dim && s.fitness_bounds@ == fitness_bounds@ && s.pareto_directions@
                    == pareto_directions@ && s.payload_dim == payload_dim && (forall|i: int|
                    0 <= i < s.particles.len() ==> {
                        let p = #[trigger] s.particles@[i];
                        &&& forall|t: int| 0 <= t < pos_dim ==> p.velocity@[t] == 0
                        &&& p.best_position@ == p.position@
                        &&& p.best_fitness@ == (if dominates_spec(
                            pessimistic_seed(fitness_bounds@, pareto_directions@),
                            p.fitness@,
                            pareto_directions@,
                        ) {
                            pessimistic_seed(fitness_bounds@, pareto_directions@)
                        } else {
                            p.fitness@
                        })
                        &&& evaluated_at(*f, p)
                    }) && leaders_from(s, Seq::<Leader>::empty()) && ranking_from(s),
            (forall|xs: Vec<i64>, out: Evaluation|
                #[trigger] call_ensures(*f, (xs,), out) ==> out.fitness.len() == fitness_dim
                    && out.payload.len() == payload_dim) ==> r is Ok,
    {
        let mut particles: Vec<Particle> = Vec::new();
        let mut i: usize = 0;
        while i < size
            invariant
                size >= 1,
                pos_bounds.len() == pos_dim,
                fitness_bounds.len() == fitness_dim,
                pareto_directions.len() == fitness_dim,
                crate::bounds_wf(pos_bounds@),
                crate::bounds_wf(fitness_bounds@),
                forall|p: Vec<i64>| p.len() == pos_dim ==> #[trigger] call_requires(*f, (p,)),
                0 <= i <= size,
                particles.len() == i,
                forall|x: int|
                    0 <= x < i ==> particle_wf(
                        #[trigger] particles@[x],
                        pos_dim as int,
                        fitness_dim as int,
                        payload_dim as int,
                        pos_bounds@,
                    ),
                forall|x: int|
                    0 <= x < i ==> {
                        let p = #[trigger] particles@[x];
                        &&& forall|t: int| 0 <= t < pos_dim ==> p.velocity@[t] == 0
                        &&& p.best_position@ == p.position@
                        &&& p.best_fitness@ == pessimistic_seed(fitness_bounds@, pareto_directions@)
                        &&& evaluated_at(*f, p)
                    },
            decreases size - i,
        {
            let mut pos: Vec<i64> = Vec::new();
            let mut t: usize = 0;
            while t < pos_dim
                invariant
                    pos_bounds.len() == pos_dim,
                    crate::bounds_wf(pos_bounds@),
                    0 <= t <= pos_dim,
                    pos.len() == t,
                    forall|u: int|
                        0 <= u < t ==> pos_bounds@[u].0 <= #[trigger] pos@[u] <= pos_bounds@[u].1,
                decreases pos_dim - t,
            {
                pos.push(crate::rng::rand_i64(pos_bounds[t].0, pos_bounds[t].1));
                t += 1;
            }
            let mut vel: Vec<i64> = Vec::new();
            let mut t: usize = 0;
            while t < pos_dim
                invariant
                    0 <= t <= pos_dim,
                    vel.len() == t,
                    forall|u: int| 0 <= u < t ==> #[trigger] vel@[u] == 0,
                decreases pos_dim - t,
            {
                vel.push(0);
                t += 1;
            }
            let mut pbf: Vec<i64> = Vec::new();
            let mut d: usize = 0;
            while d < fitness_dim
                invariant
                    fitness_bounds.len() == fitness_dim,
                    pareto_directions.len() == fitness_dim,
                    0 <= d <= fitness_dim,
                    pbf.len() == d,
                    forall|u: int|
                        0 <= u < d ==> #[trigger] pbf@[u] == pessimistic_seed(
                            fitness_bounds@,
                            pareto_directions@,
                        )[u],
                decreases fitness_dim - d,
            {
                if pareto_directions[d] {
                    pbf.push(fitness_bounds[d].0);
                } else {
                    pbf.push(fitness_bounds[d].1);
                }
                d += 1;
            }
            proof {
                assert(pbf@ =~= pessimistic_seed(fitness_bounds@, pareto_directions@));
            }
            let xs = crate::copy_vec(&pos);
            let ghost gxs = xs;
            let ev = f(xs);
            let ghost gev = ev;
            if ev.fitness.len() != fitness_dim || ev.payload.len() != payload_dim {
                return Err(crate::SwarmError::EvaluationMismatch);
            }
            let particle = Particle {
                best_position: crate::copy_vec(&pos),
                position: pos,
                velocity: vel,
                fitness: ev.fitness,
                best_fitness: pbf,
                payload: ev.payload,
            };
            particles.push(particle);
            proof {
                assert(gxs@ == particles@[i as int].position@ && call_ensures(*f, (gxs,), gev)
                    && particles@[i as int].fitness@ == gev.fitness@
                    && particles@[i as int].payload@ == gev.payload@);
                assert(evaluated_at(*f, particles@[i as int]));
            }
            i += 1;
        }
        let mut swarm = Swarm {
            pos_dim,
            pos_bounds,
            fitness_dim,
            fitness_bounds,
            pareto_directions,
            payload_dim,
            leaders: Vec::new(),
            leaders_pos_by_rank: Vec::new(),
            particles,
        };
        let ghost before = swarm;
        proof {
            assert(before.leaders@ =~= Seq::<Leader>::empty());
        }
        swarm.finish_generation();
        proof {
            assert forall|i: int| 0 <= i < swarm.particles.len() implies {
                let p = #[trigger] swarm.particles@[i];
                &&& forall|t: int| 0 <= t < pos_dim ==> p.velocity@[t] == 0
                &&& p.best_position@ == p.position@
                &&& p.best_fitness@ == (if dominates_spec(
                    pessimistic_seed(fitness_bounds@, pareto_directions@),
                    p.fitness@,
                    pareto_directions@,
                ) {
                    pessimistic_seed(fitness_bounds@, pareto_directions@)
                } else {
                    p.fitness@
                })
                &&& evaluated_at(*f, p)
            } by {
                let po = before.particles@[i];
                let pn = swarm.particles@[i];
                assert(pn.fitness@ == po.fitness@ && pn.position@ == po.position@);
                let (xs, ev) = choose|xs: Vec<i64>, ev: Evaluation|
                    xs@ == po.position@ && #[trigger] call_ensures(*f, (xs,), ev) && po.fitness@
                        == ev.fitness@ && po.payload@ == ev.payload@;
                assert(xs@ == pn.position@ && call_ensures(*f, (xs,), ev) && pn.fitness@
                    == ev.fitness@ && pn.payload@ == ev.payload@);
            }
        }
        Ok(swarm)
    }

    /// Runs `n` generations: move the particles, evaluate them with
    /// `f`, update the personal bests, recompute the leader set and
    /// its crowding ranking. Fails fast, mid-generation, if `f` hands
    /// back wrongly dimensioned fitness or payload values. A caller
    /// that wants to observe or persist every generation flies one
    /// generation at a time; one that wants to evaluate a whole
    /// generation itself, for instance in parallel, uses
    /// `update_position`, `apply_evaluations` and `finish_generation`
    /// directly.
    pub fn fly<F: Fn(Vec<i64>) -> Evaluation>(
        &mut self,
        n: usize,
        hp: &HyperParams,
        f: &F,
    ) -> (r: Result<(), crate::SwarmError>)
        requires
            old(self).wf(),
            hp.wf(),
            forall|p: Vec<i64>|
                p.len() == old(self).pos_dim ==> #[trigger] call_requires(*f, (p,)),
        ensures
            final(self).wf(),
            final(self).same_config(old(self)),
            final(self).particles.len() == old(self).particles.len(),
            n == 0 ==> *final(self) == *old(self),
            r == Ok::<(), crate::SwarmError>(()) && n >= 1 ==> (forall|i: int|
                0 <= i < final(self).particles.len() ==> #[trigger] evaluated_at(
                    *f,
                    final(self).particles@[i],
                )) && (exists|prev: Seq<Leader>| #[trigger] leaders_from(*final(self), prev))
                && ranking_from(*final(self)),
            (forall|xs: Vec<i64>, out: Evaluation|
                #[trigger] call_ensures(*f, (xs,), out) ==> out.fitness.len() == old(
                    self,
                ).fitness_dim && out.payload.len() == old(self).payload_dim) ==> r is Ok,
    {
        let mut g: usize = 0;
        while g < n
            invariant
                self.wf(),
                self.same_config(old(self)),
                self.particles.len() == old(self).particles.len(),
                hp.wf(),
                forall|p: Vec<i64>|
                    p.len() == old(self).pos_dim ==> #[trigger] call_requires(*f, (p,)),
                0 <= g <= n,
                g == 0 ==> *self == *old(self),
                g >= 1 ==> (forall|i: int|
                    0 <= i < self.particles.len() ==> #[trigger] evaluated_at(
                        *f,
                        self.particles@[i],
                    )) && (exists|prev: Seq<Leader>| #[trigger] leaders_from(*self, prev))
                    && ranking_from(*self),
            decreases n - g,
        {
            self.update_position(hp);
            let ghost p1 = self.particles@;
            let count = self.particles.len();
            let mut evals: Vec<Evaluation> = Vec::new();
            let mut i: usize = 0;
            while i < count
                invariant
                    self.wf(),
                    self.same_config(old(self)),
                    self.particles.len() == count,
                    self.particles@ == p1,
                    forall|p: Vec<i64>|
                        p.len() == old(self).pos_dim ==> #[trigger] call_requires(*f, (p,)),
                    0 <= i <= count,
                    evals.len() == i,
                    forall|t: int| 0 <= t < i ==> #[trigger] eval_for(*f, p1[t], evals@[t]),
                decreases count - i,
            {
                let xs = crate::copy_vec(&self.particles[i].position);
                let ghost gxs = xs;
                let ev = f(xs);
                evals.push(ev);
                proof {
                    assert(gxs@ == p1[i as int].position@ && call_ensures(
                        *f,
                        (gxs,),
                        evals@[i as int],
                    ));
                    assert(eval_for(*f, p1[i as int], evals@[i as int]));
                }
                i += 1;
            }
            let applied = self.apply_evaluations(&evals);
            match applied {
                Ok(unit) => {
                }
                Err(e) => {
                    proof {
                        if forall|xs: Vec<i64>, out: Evaluation|
                            #[trigger] call_ensures(*f, (xs,), out) ==> out.fitness.len() == old(
                            self,
                        ).fitness_dim && out.payload.len() == old(self).payload_dim {
                            assert forall|t: int| 0 <= t < count implies (#[trigger] evals@[t]).fitness.len()
                                == old(self).fitness_dim && evals@[t].payload.len() == old(
                                self,
                            ).payload_dim by {
                                assert(eval_for(*f, p1[t], evals@[t]));
                                let xs = choose|xs: Vec<i64>|
                                    xs@ == p1[t].position@ && #[trigger] call_ensures(
                                        *f,
                                        (xs,),
                                        evals@[t],
                                    );
                                assert(call_ensures(*f, (xs,), evals@[t]));
                            }
                            assert(false);
                        }
                    }
                    return Err(e);
                }
            }
            let ghost p2 = self.particles@;
            let ghost prev_leaders = self.leaders@;
            self.finish_generation();
            proof {
                assert forall|i: int| 0 <= i < self.particles.len() implies #[trigger] evaluated_at(
                    *f,
                    self.particles@[i],
                ) by {
                    assert(eval_for(*f, p1[i], evals@[i]));
                    let xs = choose|xs: Vec<i64>|
                        xs@ == p1[i].position@ && #[trigger] call_ensures(*f, (xs,), evals@[i]);
                    assert(self.particles@[i].position@ == p2[i].position@);
                    assert(p2[i].position@ == p1[i].position@);
                    assert(self.particles@[i].fitness@ == p2[i].fitness@);
                    assert(p2[i].fitness@ == evals@[i].fitness@);
                    assert(self.particles@[i].payload@ == evals@[i].payload@);
                    assert(xs@ == self.particles@[i].position@ && call_ensures(
                        *f,
                        (xs,),
                        evals@[i],
                    ) && self.particles@[i].fitness@ == evals@[i].fitness@
                        && self.particles@[i].payload@ == evals@[i].payload@);
                }
                assert(leaders_from(*self, prev_leaders));
                assert(ranking_from(*self));
            }
            g += 1;
        }
        Ok(())
    }
}

} // verus!
