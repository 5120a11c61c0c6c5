//! Single-objective particle swarm: hyperparameters, the canonical
//! velocity/position update for one dimension, and the swarm driver
//! that keeps one best-fitness leader.

use crate::clamp_spec;
use crate::sdiv;
use crate::sdiv_spec;
use crate::clamp_i128;
use crate::MAX_WEIGHT;
use crate::SCALE;
use crate::copy_vec;
use crate::rng::rand_i64;
use vstd::prelude::*;

verus! {

/// PSO velocity-update coefficients, in fixed-point form.
pub struct HyperParams {
    pub learning_cognitive: i64,
    pub learning_social: i64,
    pub inertia: i64,
}

impl HyperParams {
    /// All weights are small enough for the update arithmetic to stay
    /// inside 128 bits.
    pub open spec fn wf(&self) -> bool {
        &&& -MAX_WEIGHT <= self.learning_cognitive <= MAX_WEIGHT
        &&& -MAX_WEIGHT <= self.learning_social <= MAX_WEIGHT
        &&& -MAX_WEIGHT <= self.inertia <= MAX_WEIGHT
    }

    pub fn new(learning_cognitive: i64, learning_social: i64, inertia: i64) -> (r: HyperParams)
        requires
            -MAX_WEIGHT <= learning_cognitive <= MAX_WEIGHT,
            -MAX_WEIGHT <= learning_social <= MAX_WEIGHT,
            -MAX_WEIGHT <= inertia <= MAX_WEIGHT,
        ensures
            r.wf(),
            r.learning_cognitive == learning_cognitive,
            r.learning_social == learning_social,
            r.inertia == inertia,
    {
        HyperParams { learning_cognitive, learning_social, inertia }
    }
}

/// The new velocity in one dimension: inertia term plus the cognitive
/// pull toward the personal best and the social pull toward the leader,
/// each damped by a fresh unit draw, saturated into `i64`.
pub open spec fn vel_update_spec(
    v: int,
    p: int,
    pb: int,
    lp: int,
    inertia: int,
    lc: int,
    ls: int,
    r1: int,
    r2: int,
) -> int {
    clamp_spec(
        sdiv_spec(inertia * v) + sdiv_spec(sdiv_spec(lc * r1) * (pb - p)) + sdiv_spec(
            sdiv_spec(ls * r2) * (lp - p),
        ),
        i64::MIN as int,
        i64::MAX as int,
    )
}

/// The new position in one dimension: the velocity step, hard-clamped
/// into the dimension's bounds.
pub open spec fn pos_update_spec(p: int, v_new: int, lo: int, hi: int) -> int {
    clamp_spec(p + v_new, lo, hi)
}

proof fn lemma_mul_bound(a: int, b: int, aa: int, bb: int)
    requires
        -aa <= a <= aa,
        -bb <= b <= bb,
        0 <= aa,
        0 <= bb,
    ensures
        -(aa * bb) <= a * b <= aa * bb,
{
    assert(-(aa * bb) <= a * b <= aa * bb) by (nonlinear_arith)
        requires
            -aa <= a <= aa,
            -bb <= b <= bb,
            0 <= aa,
            0 <= bb,
    ;
}

/// One dimension of the canonical PSO update: returns the new velocity
/// and the new, bound-clamped position.
pub fn step_dim(
    v: i64,
    p: i64,
    pb: i64,
    lp: i64,
    hp: &HyperParams,
    r1: i64,
    r2: i64,
    lo: i64,
    hi: i64,
) -> (r: (i64, i64))
    requires
        hp.wf(),
        0 <= r1 <= SCALE,
        0 <= r2 <= SCALE,
        lo <= hi,
    ensures
        r.0 == vel_update_spec(
            v as int,
            p as int,
            pb as int,
            lp as int,
            hp.inertia as int,
            hp.learning_cognitive as int,
            hp.learning_social as int,
            r1 as int,
            r2 as int,
        ),
        r.1 == pos_update_spec(p as int, r.0 as int, lo as int, hi as int),
        lo <= r.1 <= hi,
{
    proof {
        lemma_mul_bound(hp.inertia as int, v as int, MAX_WEIGHT as int, i64::MAX as int + 1);
        lemma_mul_bound(hp.learning_cognitive as int, r1 as int, MAX_WEIGHT as int, SCALE as int);
        lemma_mul_bound(hp.learning_social as int, r2 as int, MAX_WEIGHT as int, SCALE as int);
    }
    let inertia_term = sdiv(hp.inertia as i128 * v as i128);
    let c1r1 = sdiv(hp.learning_cognitive as i128 * r1 as i128);
    let c2r2 = sdiv(hp.learning_social as i128 * r2 as i128);
    let d_cog = pb as i128 - p as i128;
    let d_soc = lp as i128 - p as i128;
    proof {
        lemma_mul_bound(c1r1 as int, d_cog as int, MAX_WEIGHT as int, 0x2_0000_0000_0000_0000);
        lemma_mul_bound(c2r2 as int, d_soc as int, MAX_WEIGHT as int, 0x2_0000_0000_0000_0000);
    }
    let cognitive_term = sdiv(c1r1 * d_cog);
    let social_term = sdiv(c2r2 * d_soc);
    let new_v = clamp_i128(inertia_term + cognitive_term + social_term, i64::MIN, i64::MAX);
    let new_p = clamp_i128(p as i128 + new_v as i128, lo, hi);
    (new_v, new_p)
}

/// One candidate solution in the single-objective swarm.
pub struct Particle {
    pub position: Vec<i64>,
    pub velocity: Vec<i64>,
    pub fitness: i64,
    pub best_position: Vec<i64>,
    pub best_fitness: i64,
    pub payload: Vec<i64>,
}

/// What the evaluation callback hands back for one particle.
pub struct Evaluation {
    pub fitness: i64,
    pub payload: Vec<i64>,
}

/// `e` is an output the evaluation callback `f` could have produced
/// for (a copy of) the particle's position.
pub open spec fn eval_for<F: Fn(Vec<i64>) -> Evaluation>(f: F, p: Particle, e: Evaluation) -> bool {
    exists|xs: Vec<i64>| xs@ == p.position@ && #[trigger] call_ensures(f, (xs,), e)
}

/// The particle's fitness and payload are an output of the evaluation
/// callback `f` on (a copy of) the particle's own position.
pub open spec fn evaluated_at<F: Fn(Vec<i64>) -> Evaluation>(f: F, p: Particle) -> bool {
    exists|xs: Vec<i64>, ev: Evaluation|
        xs@ == p.position@ && #[trigger] call_ensures(f, (xs,), ev) && p.fitness == ev.fitness
            && p.payload@ == ev.payload@
}

/// The swarm's leader is the last particle whose fitness attains the
/// maximum, seeded from the pessimistic fitness bound; if every
/// fitness is below that bound, it is the first particle.
pub open spec fn leader_is_best(s: Swarm) -> bool {
    &&& s.leader < s.particles.len()
    &&& (exists|i: int|
        0 <= i < s.particles.len() && (#[trigger] s.particles@[i]).fitness
            >= s.fitness_bounds.0) ==> {
        let fits = s.particles@;
        let l = s.leader as int;
        &&& fits[l].fitness >= s.fitness_bounds.0
        &&& forall|j: int| 0 <= j < fits.len() ==> (#[trigger] fits[j]).fitness <= fits[l].fitness
        &&& forall|j: int| l < j < fits.len() ==> (#[trigger] fits[j]).fitness < fits[l].fitness
    }
    &&& !(exists|i: int|
        0 <= i < s.particles.len() && (#[trigger] s.particles@[i]).fitness
            >= s.fitness_bounds.0) ==> s.leader == 0
}

/// All of a particle's vectors have their declared dimension and its
/// position lies inside the search bounds.
pub open spec fn particle_wf(
    p: Particle,
    pos_dim: int,
    payload_dim: int,
    pos_bounds: Seq<(i64, i64)>,
) -> bool {
    &&& p.position.len() == pos_dim
    &&& p.velocity.len() == pos_dim
    &&& p.best_position.len() == pos_dim
    &&& p.payload.len() == payload_dim
    &&& forall|i: int|
        0 <= i < pos_dim ==> (#[trigger] pos_bounds[i]).0 <= p.position@[i] <= pos_bounds[i].1
}

/// One dimension of one particle's update, with the unit draws `r1`
/// and `r2`.
pub open spec fn dim_step1(
    hp: HyperParams,
    v_old: i64,
    p_old: i64,
    pb_old: i64,
    lp: i64,
    lo: i64,
    hi: i64,
    v_new: i64,
    p_new: i64,
    r1: int,
    r2: int,
) -> bool {
    &&& 0 <= r1 <= SCALE as int
    &&& 0 <= r2 <= SCALE as int
    &&& v_new as int == vel_update_spec(
        v_old as int,
        p_old as int,
        pb_old as int,
        lp as int,
        hp.inertia as int,
        hp.learning_cognitive as int,
        hp.learning_social as int,
        r1,
        r2,
    )
    &&& p_new as int == pos_update_spec(p_old as int, v_new as int, lo as int, hi as int)
}

/// One dimension of one particle's update came from the canonical PSO
/// step toward the leader position `lp`, for some pair of unit draws.
pub open spec fn stepped_dim1(
    hp: HyperParams,
    v_old: i64,
    p_old: i64,
    pb_old: i64,
    lp: i64,
    lo: i64,
    hi: i64,
    v_new: i64,
    p_new: i64,
) -> bool {
    exists|r1: int, r2: int| dim_step1(hp, v_old, p_old, pb_old, lp, lo, hi, v_new, p_new, r1, r2)
}

/// The single-objective swarm: the particle store, the search space,
/// the scalar fitness range, and the index of the best particle seen
/// in the last evaluation.
pub struct Swarm {
    pub pos_dim: usize,
    pub pos_bounds: Vec<(i64, i64)>,
    pub fitness_bounds: (i64, i64),
    pub payload_dim: usize,
    pub leader: usize,
    pub particles: Vec<Particle>,
}

impl Swarm {
    /// The search-space description is consistent.
    pub open spec fn config_wf(&self) -> bool {
        &&& self.pos_bounds.len() == self.pos_dim
        &&& crate::bounds_wf(self.pos_bounds@)
        &&& self.fitness_bounds.0 <= self.fitness_bounds.1
    }

    /// Two swarms describe the same search problem.
    pub open spec fn same_config(&self, other: &Swarm) -> bool {
        &&& self.pos_dim == other.pos_dim
        &&& self.pos_bounds@ == other.pos_bounds@
        &&& self.fitness_bounds == other.fitness_bounds
        &&& self.payload_dim == other.payload_dim
    }

    /// Every particle is well-formed and the leader index is valid.
    pub open spec fn wf(&self) -> bool {
        &&& self.config_wf()
        &&& self.particles.len() >= 1
        &&& forall|i: int|
            0 <= i < self.particles.len() ==> particle_wf(
                #[trigger] self.particles@[i],
                self.pos_dim as int,
                self.payload_dim as int,
                self.pos_bounds@,
            )
        &&& self.leader < self.particles.len()
    }

    /// A particle's personal best is replaced by its current position
    /// and fitness whenever the current fitness is at least as good:
    /// the personal best never regresses.
    fn set_personal_bests(&mut self)
        requires
            old(self).config_wf(),
            old(self).particles.len() >= 1,
            forall|i: int|
                0 <= i < old(self).particles.len() ==> particle_wf(
                    #[trigger] old(self).particles@[i],
                    old(self).pos_dim as int,
                    old(self).payload_dim as int,
                    old(self).pos_bounds@,
                ),
        ensures
            final(self).same_config(old(self)),
            final(self).config_wf(),
            final(self).leader == old(self).leader,
            final(self).particles.len() == old(self).particles.len(),
            forall|i: int|
                0 <= i < final(self).particles.len() ==> particle_wf(
                    #[trigger] final(self).particles@[i],
                    final(self).pos_dim as int,
                    final(self).payload_dim as int,
                    final(self).pos_bounds@,
                ),
            forall|i: int|
                0 <= i < final(self).particles.len() ==> {
                    let po = old(self).particles@[i];
                    let pn = #[trigger] final(self).particles@[i];
                    &&& pn.position@ == po.position@
                    &&& pn.velocity@ == po.velocity@
                    &&& pn.fitness == po.fitness
                    &&& pn.payload@ == po.payload@
                    &&& if po.fitness >= po.best_fitness {
                        pn.best_fitness == po.fitness && pn.best_position@ == po.position@
                    } else {
                        pn.best_fitness == po.best_fitness && pn.best_position@
                            == po.best_position@
                    }
                },
            forall|i: int|
                0 <= i < final(self).particles.len()
                    ==> (#[trigger] final(self).particles@[i]).best_fitness
                    >= old(self).particles@[i].best_fitness,
    {
        let n = self.particles.len();
        let mut out: Vec<Particle> = Vec::new();
        let mut i: usize = 0;
        while i < n
            invariant
                *self == *old(self),
                old(self).config_wf(),
                forall|x: int|
                    0 <= x < old(self).particles.len() ==> particle_wf(
                        #[trigger] old(self).particles@[x],
                        old(self).pos_dim as int,
                        old(self).payload_dim as int,
                        old(self).pos_bounds@,
                    ),
                self.particles.len() == n,
                0 <= i <= n,
                out.len() == i,
                forall|t: int|
                    0 <= t < i ==> {
                        let po = old(self).particles@[t];
                        let pn = #[trigger] out@[t];
                        &&& pn.position@ == po.position@
                        &&& pn.velocity@ == po.velocity@
                        &&& pn.fitness == po.fitness
                        &&& pn.payload@ == po.payload@
                        &&& if po.fitness >= po.best_fitness {
                            pn.best_fitness == po.fitness && pn.best_position@ == po.position@
                        } else {
                            pn.best_fitness == po.best_fitness && pn.best_position@
                                == po.best_position@
                        }
                    },
            decreases n - i,
        {
            let p = &self.particles[i];
            let particle = if p.fitness >= p.best_fitness {
                Particle {
                    position: copy_vec(&p.position),
                    velocity: copy_vec(&p.velocity),
                    fitness: p.fitness,
                    best_position: copy_vec(&p.position),
                    best_fitness: p.fitness,
                    payload: copy_vec(&p.payload),
                }
            } else {
                Particle {
                    position: copy_vec(&p.position),
                    velocity: copy_vec(&p.velocity),
                    fitness: p.fitness,
                    best_position: copy_vec(&p.best_position),
                    best_fitness: p.best_fitness,
                    payload: copy_vec(&p.payload),
                }
            };
            out.push(particle);
            i += 1;
        }
        self.particles = out;
    }

    /// Scans the current fitness column and keeps, as the leader, the
    /// last particle whose fitness attains the maximum, seeded from
    /// the pessimistic fitness bound; if every fitness is below the
    /// pessimistic bound the first particle is kept.
    fn find_and_set_leader(&mut self)
        requires
            old(self).config_wf(),
            old(self).particles.len() >= 1,
        ensures
            final(self).same_config(old(self)),
            final(self).config_wf(),
            final(self).particles@ == old(self).particles@,
            leader_is_best(*final(self)),
    {
        let n = self.particles.len();
        let lb = self.fitness_bounds.0;
        let mut best_i: usize = 0;
        let mut best_f: i64 = lb;
        let mut found = false;
        let mut j: usize = 0;
        while j < n
            invariant
                *self == *old(self),
                self.particles.len() == n,
                n >= 1,
                lb == self.fitness_bounds.0,
                0 <= j <= n,
                !found ==> best_i == 0 && best_f == lb,
                !found ==> forall|k: int|
                    0 <= k < j ==> (#[trigger] self.particles@[k]).fitness < lb,
                found ==> best_i < j && best_f == self.particles@[best_i as int].fitness && best_f
                    >= lb,
                forall|k: int| 0 <= k < j ==> (#[trigger] self.particles@[k]).fitness <= best_f,
                found ==> forall|k: int|
                    best_i < k < j ==> (#[trigger] self.particles@[k]).fitness < best_f,
            decreases n - j,
        {
            if self.particles[j].fitness >= best_f {
                best_i = j;
                best_f = self.particles[j].fitness;
                found = true;
            }
            j += 1;
        }
        self.leader = best_i;
    }

    /// Moves every particle: in each dimension the velocity gains the
    /// inertia term plus random cognitive and social pulls (toward the
    /// personal best and the leader), and the position takes the
    /// velocity step, hard-clamped into bounds.
    pub fn update_position(&mut self, hp: &HyperParams)
        requires
            old(self).wf(),
            hp.wf(),
        ensures
            final(self).same_config(old(self)),
            final(self).wf(),
            final(self).leader == old(self).leader,
            final(self).particles.len() == old(self).particles.len(),
            forall|i: int|
                0 <= i < final(self).particles.len() ==> {
                    let po = old(self).particles@[i];
                    let pn = #[trigger] final(self).particles@[i];
                    &&& pn.fitness == po.fitness
                    &&& pn.best_position@ == po.best_position@
                    &&& pn.best_fitness == po.best_fitness
                    &&& pn.payload@ == po.payload@
                    &&& forall|t: int|
                        0 <= t < old(self).pos_dim ==> #[trigger] stepped_dim1(
                            *hp,
                            po.velocity@[t],
                            po.position@[t],
                            po.best_position@[t],
                            old(self).particles@[old(self).leader as int].position@[t],
                            old(self).pos_bounds@[t].0,
                            old(self).pos_bounds@[t].1,
                            pn.velocity@[t],
                            pn.position@[t],
                        )
                },
    {
        let n = self.particles.len();
        let dim = self.pos_dim;
        let lead = copy_vec(&self.particles[self.leader].position);
        let mut out: Vec<Particle> = Vec::new();
        let mut i: usize = 0;
        while i < n
            invariant
                *self == *old(self),
                old(self).wf(),
                hp.wf(),
                self.particles.len() == n,
                self.pos_dim == dim,
                lead@ == old(self).particles@[old(self).leader as int].position@,
                lead.len() == dim,
                0 <= i <= n,
                out.len() == i,
                forall|x: int|
                    0 <= x < i ==> particle_wf(
                        #[trigger] out@[x],
                        self.pos_dim as int,
                        self.payload_dim as int,
                        self.pos_bounds@,
                    ),
                forall|x: int|
                    0 <= x < i ==> {
                        let po = old(self).particles@[x];
                        let pn = #[trigger] out@[x];
                        &&& pn.fitness == po.fitness
                        &&& pn.best_position@ == po.best_position@
                        &&& pn.best_fitness == po.best_fitness
                        &&& pn.payload@ == po.payload@
                        &&& forall|t: int|
                            0 <= t < old(self).pos_dim ==> #[trigger] stepped_dim1(
                                *hp,
                                po.velocity@[t],
                                po.position@[t],
                                po.best_position@[t],
                                old(self).particles@[old(self).leader as int].position@[t],
                                old(self).pos_bounds@[t].0,
                                old(self).pos_bounds@[t].1,
                                pn.velocity@[t],
                                pn.position@[t],
                            )
                    },
            decreases n - i,
        {
            let old_pos = copy_vec(&self.particles[i].position);
            let old_vel = copy_vec(&self.particles[i].velocity);
            let old_best = copy_vec(&self.particles[i].best_position);
            let mut new_vel: Vec<i64> = Vec::new();
            let mut new_pos: Vec<i64> = Vec::new();
            let mut t: usize = 0;
            while t < dim
                invariant
                    *self == *old(self),
                    old(self).wf(),
                    hp.wf(),
                    self.particles.len() == n,
                    self.pos_dim == dim,
                    lead@ == old(self).particles@[old(self).leader as int].position@,
                    lead.len() == dim,
                    0 <= i < n,
                    old_pos@ == old(self).particles@[i as int].position@,
                    old_vel@ == old(self).particles@[i as int].velocity@,
                    old_best@ == old(self).particles@[i as int].best_position@,
                    old_pos.len() == dim,
                    old_vel.len() == dim,
                    old_best.len() == dim,
                    0 <= t <= dim,
                    new_vel.len() == t,
                    new_pos.len() == t,
                    forall|u: int|
                        0 <= u < t ==> self.pos_bounds@[u].0 <= #[trigger] new_pos@[u]
                            <= self.pos_bounds@[u].1,
                    forall|u: int|
                        0 <= u < t ==> #[trigger] stepped_dim1(
                            *hp,
                            old_vel@[u],
                            old_pos@[u],
                            old_best@[u],
                            old(self).particles@[old(self).leader as int].position@[u],
                            old(self).pos_bounds@[u].0,
                            old(self).pos_bounds@[u].1,
                            new_vel@[u],
                            new_pos@[u],
                        ),
                decreases dim - t,
            {
                let r1 = rand_i64(0, SCALE);
                let r2 = rand_i64(0, SCALE);
                let lo = self.pos_bounds[t].0;
                let hi = self.pos_bounds[t].1;
                let step = step_dim(old_vel[t], old_pos[t], old_best[t], lead[t], hp, r1, r2, lo, hi);
                new_vel.push(step.0);
                new_pos.push(step.1);
                proof {
                    assert(dim_step1(
                        *hp,
                        old_vel@[t as int],
                        old_pos@[t as int],
                        old_best@[t as int],
                        old(self).particles@[old(self).leader as int].position@[t as int],
                        old(self).pos_bounds@[t as int].0,
                        old(self).pos_bounds@[t as int].1,
                        new_vel@[t as int],
                        new_pos@[t as int],
                        r1 as int,
                        r2 as int,
                    ));
                }
                t += 1;
            }
            let particle = Particle {
                position: new_pos,
                velocity: new_vel,
                fitness: self.particles[i].fitness,
                best_position: copy_vec(&self.particles[i].best_position),
                best_fitness: self.particles[i].best_fitness,
                payload: copy_vec(&self.particles[i].payload),
            };
            out.push(particle);
            i += 1;
        }
        self.particles = out;
    }

    /// Installs the evaluator's output: particle `i` gets fitness and
    /// payload `evals[i]`. Fails, changing nothing, unless there is
    /// exactly one well-dimensioned evaluation per particle.
    pub fn apply_evaluations(&mut self, evals: &Vec<Evaluation>) -> (r: Result<(), crate::SwarmError>)
        requires
            old(self).config_wf(),
            old(self).particles.len() >= 1,
            forall|i: int|
                0 <= i < old(self).particles.len() ==> particle_wf(
                    #[trigger] old(self).particles@[i],
                    old(self).pos_dim as int,
                    old(self).payload_dim as int,
                    old(self).pos_bounds@,
                ),
        ensures
            final(self).same_config(old(self)),
            final(self).config_wf(),
            final(self).leader == old(self).leader,
            final(self).particles.len() == old(self).particles.len(),
            forall|i: int|
                0 <= i < final(self).particles.len() ==> particle_wf(
                    #[trigger] final(self).particles@[i],
                    final(self).pos_dim as int,
                    final(self).payload_dim as int,
                    final(self).pos_bounds@,
                ),
            r == Ok::<(), crate::SwarmError>(()) <==> (evals.len() == old(self).particles.len()
                && forall|i: int|
                0 <= i < evals.len() ==> (#[trigger] evals@[i]).payload.len() == old(
                    self,
                ).payload_dim),
            r != Ok::<(), crate::SwarmError>(()) ==> r == Err::<(), crate::SwarmError>(
                crate::SwarmError::EvaluationMismatch,
            ) && final(self).particles@ == old(self).particles@,
            r == Ok::<(), crate::SwarmError>(()) ==> forall|i: int|
                0 <= i < final(self).particles.len() ==> {
                    let po = old(self).particles@[i];
                    let pn = #[trigger] final(self).particles@[i];
                    &&& pn.position@ == po.position@
                    &&& pn.velocity@ == po.velocity@
                    &&& pn.best_position@ == po.best_position@
                    &&& pn.best_fitness == po.best_fitness
                    &&& pn.fitness == evals@[i].fitness
                    &&& pn.payload@ == evals@[i].payload@
                },
    {
        let n = self.particles.len();
        if evals.len() != n {
            return Err(crate::SwarmError::EvaluationMismatch);
        }
        let mut i: usize = 0;
        while i < n
            invariant
                *self == *old(self),
                old(self).config_wf(),
                forall|x: int|
                    0 <= x < old(self).particles.len() ==> particle_wf(
                        #[trigger] old(self).particles@[x],
                        old(self).pos_dim as int,
                        old(self).payload_dim as int,
                        old(self).pos_bounds@,
                    ),
                self.particles.len() == n,
                evals.len() == n,
                0 <= i <= n,
                forall|t: int|
                    0 <= t < i ==> (#[trigger] evals@[t]).payload.len() == self.payload_dim,
            decreases n - i,
        {
            if evals[i].payload.len() != self.payload_dim {
                return Err(crate::SwarmError::EvaluationMismatch);
            }
            i += 1;
        }
        let mut out: Vec<Particle> = Vec::new();
        let mut i: usize = 0;
        while i < n
            invariant
                *self == *old(self),
                old(self).config_wf(),
                forall|x: int|
                    0 <= x < old(self).particles.len() ==> particle_wf(
                        #[trigger] old(self).particles@[x],
                        old(self).pos_dim as int,
                        old(self).payload_dim as int,
                        old(self).pos_bounds@,
                    ),
                self.particles.len() == n,
                evals.len() == n,
                forall|t: int|
                    0 <= t < n ==> (#[trigger] evals@[t]).payload.len() == self.payload_dim,
                0 <= i <= n,
                out.len() == i,
                forall|t: int|
                    0 <= t < i ==> {
                        let po = old(self).particles@[t];
                        let pn = #[trigger] out@[t];
                        &&& pn.position@ == po.position@
                        &&& pn.velocity@ == po.velocity@
                        &&& pn.best_position@ == po.best_position@
                        &&& pn.best_fitness == po.best_fitness
                        &&& pn.fitness == evals@[t].fitness
                        &&& pn.payload@ == evals@[t].payload@
                    },
            decreases n - i,
        {
            let p = &self.particles[i];
            let particle = Particle {
                position: copy_vec(&p.position),
                velocity: copy_vec(&p.velocity),
                fitness: evals[i].fitness,
                best_position: copy_vec(&p.best_position),
                best_fitness: p.best_fitness,
                payload: copy_vec(&evals[i].payload),
            };
            out.push(particle);
            i += 1;
        }
        self.particles = out;
        Ok(())
    }

    /// One generation's bookkeeping after evaluation: update the
    /// personal bests and pick the new leader. Public so that a
    /// caller evaluating a whole generation itself — for instance in
    /// parallel — can drive the swarm phase by phase:
    /// `update_position`, evaluate, `apply_evaluations`, then this.
    pub fn finish_generation(&mut self)
        requires
            old(self).config_wf(),
            old(self).particles.len() >= 1,
            forall|i: int|
                0 <= i < old(self).particles.len() ==> particle_wf(
                    #[trigger] old(self).particles@[i],
                    old(self).pos_dim as int,
                    old(self).payload_dim as int,
                    old(self).pos_bounds@,
                ),
        ensures
            final(self).same_config(old(self)),
            final(self).wf(),
            final(self).particles.len() == old(self).particles.len(),
            forall|i: int|
                0 <= i < final(self).particles.len() ==> {
                    let po = old(self).particles@[i];
                    let pn = #[trigger] final(self).particles@[i];
                    &&& pn.position@ == po.position@
                    &&& pn.velocity@ == po.velocity@
                    &&& pn.fitness == po.fitness
                    &&& pn.payload@ == po.payload@
                    &&& if po.fitness >= po.best_fitness {
                        pn.best_fitness == po.fitness && pn.best_position@ == po.position@
                    } else {
                        pn.best_fitness == po.best_fitness && pn.best_position@
                            == po.best_position@
                    }
                },
            forall|i: int|
                0 <= i < final(self).particles.len()
                    ==> (#[trigger] final(self).particles@[i]).best_fitness
                    >= old(self).particles@[i].best_fitness,
            leader_is_best(*final(self)),
    {
        self.set_personal_bests();
        self.find_and_set_leader();
    }

    /// Builds a swarm: every particle gets a uniformly random position
    /// inside the bounds, zero velocity, a personal best seeded at the
    /// pessimistic fitness bound, and a first evaluation by `f`; then
    /// the first leader is chosen. Fails only if `f` hands back a
    /// wrongly dimensioned payload. A caller with a per-generation
    /// observer invokes it on the returned swarm, which is in its
    /// first observable state.
    pub fn new<F: Fn(Vec<i64>) -> Evaluation>(
        size: usize,
        pos_dim: usize,
        pos_bounds: Vec<(i64, i64)>,
        fitness_bounds: (i64, i64),
        payload_dim: usize,
        f: &F,
    ) -> (r: Result<Swarm, crate::SwarmError>)
        requires
            size >= 1,
            pos_bounds.len() == pos_dim,
            fitness_bounds.0 <= fitness_bounds.1,
            crate::bounds_wf(pos_bounds@),
            forall|p: Vec<i64>| p.len() == pos_dim ==> #[trigger] call_requires(*f, (p,)),
        ensures
            forall|s: Swarm|
                r == Ok::<Swarm, crate::SwarmError>(s) ==> s.wf() && s.particles.len() == size
                    && s.pos_dim == pos_dim && s.pos_bounds@ == pos_bounds@ && s.fitness_bounds
                    == fitness_bounds && s.payload_dim == payload_dim && (forall|i: int|
                    0 <= i < s.particles.len() ==> {
                        let p = #[trigger] s.particles@[i];
                        &&& forall|t: int| 0 <= t < pos_dim ==> p.velocity@[t] == 0
                        &&& p.best_position@ == p.position@
                        &&& p.best_fitness == (if p.fitness >= fitness_bounds.0 {
                            p.fitness
                        } else {
                            fitness_bounds.0
                        })
                        &&& evaluated_at(*f, p)
                    }) && leader_is_best(s),
            (forall|xs: Vec<i64>, out: Evaluation|
                #[trigger] call_ensures(*f, (xs,), out) ==> out.payload.len() == payload_dim)
                ==> r is Ok,
    {
        let mut particles: Vec<Particle> = Vec::new();
        let mut i: usize = 0;
        while i < size
            invariant
                size >= 1,
                pos_bounds.len() == pos_dim,
                crate::bounds_wf(pos_bounds@),
                forall|p: Vec<i64>| p.len() == pos_dim ==> #[trigger] call_requires(*f, (p,)),
                0 <= i <= size,
                particles.len() == i,
                forall|x: int|
                    0 <= x < i ==> particle_wf(
                        #[trigger] particles@[x],
                        pos_dim as int,
                        payload_dim as int,
                        pos_bounds@,
                    ),
                forall|x: int|
                    0 <= x < i ==> {
                        let p = #[trigger] particles@[x];
                        &&& forall|t: int| 0 <= t < pos_dim ==> p.velocity@[t] == 0
                        &&& p.best_position@ == p.position@
                        &&& p.best_fitness == fitness_bounds.0
                        &&& evaluated_at(*f, p)
                    },
            decreases size - i,
        {
            let mut pos: Vec<i64> = Vec::new();
            let mut t: usize = 0;
            while t < pos_dim
                invariant
                    pos_bounds.len() == pos_dim,
                    crate::bounds_wf(pos_bounds@),
                    0 <= t <= pos_dim,
                    pos.len() == t,
                    forall|u: int|
                        0 <= u < t ==> pos_bounds@[u].0 <= #[trigger] pos@[u] <= pos_bounds@[u].1,
                decreases pos_dim - t,
            {
                pos.push(rand_i64(pos_bounds[t].0, pos_bounds[t].1));
                t += 1;
            }
            let mut vel: Vec<i64> = Vec::new();
            let mut t: usize = 0;
            while t < pos_dim
                invariant
                    0 <= t <= pos_dim,
                    vel.len() == t,
                    forall|u: int| 0 <= u < t ==> #[trigger] vel@[u] == 0,
                decreases pos_dim - t,
            {
                vel.push(0);
                t += 1;
            }
            let xs = copy_vec(&pos);
            let ghost gxs = xs;
            let ev = f(xs);
            let ghost gev = ev;
            if ev.payload.len() != payload_dim {
                return Err(crate::SwarmError::EvaluationMismatch);
            }
            let particle = Particle {
                best_position: copy_vec(&pos),
                position: pos,
                velocity: vel,
                fitness: ev.fitness,
                best_fitness: fitness_bounds.0,
                payload: ev.payload,
            };
            particles.push(particle);
            proof {
                assert(gxs@ == particles@[i as int].position@ && call_ensures(*f, (gxs,), gev)
                    && particles@[i as int].fitness == gev.fitness
                    && particles@[i as int].payload@ == gev.payload@);
                assert(evaluated_at(*f, particles@[i as int]));
            }
            i += 1;
        }
        let mut swarm = Swarm {
            pos_dim,
            pos_bounds,
            fitness_bounds,
            payload_dim,
            leader: 0,
            particles,
        };
        let ghost before = swarm;
        swarm.finish_generation();
        proof {
            assert forall|i: int| 0 <= i < swarm.particles.len() implies {
                let p = #[trigger] swarm.particles@[i];
                &&& forall|t: int| 0 <= t < pos_dim ==> p.velocity@[t] == 0
                &&& p.best_position@ == p.position@
                &&& p.best_fitness == (if p.fitness >= fitness_bounds.0 {
                    p.fitness
                } else {
                    fitness_bounds.0
                })
                &&& evaluated_at(*f, p)
            } by {
                let po = before.particles@[i];
                let pn = swarm.particles@[i];
                assert(pn.fitness == po.fitness && pn.position@ == po.position@);
                let (xs, ev) = choose|xs: Vec<i64>, ev: Evaluation|
                    xs@ == po.position@ && #[trigger] call_ensures(*f, (xs,), ev) && po.fitness
                        == ev.fitness && po.payload@ == ev.payload@;
                assert(xs@ == pn.position@ && call_ensures(*f, (xs,), ev) && pn.fitness
                    == ev.fitness && pn.payload@ == ev.payload@);
            }
        }
        Ok(swarm)
    }

    /// Runs `n` generations: move the particles, evaluate them with
    /// `f`, update the personal bests, pick the new leader. Fails
    /// fast, mid-generation, if `f` hands back a wrongly dimensioned
    /// payload. No particle's personal-best fitness ever decreases. A
    /// caller that wants to observe or persist every generation flies
    /// one generation at a time; one that wants to evaluate a whole
    /// generation itself, for instance in parallel, uses
    /// `update_position`, `apply_evaluations` and `finish_generation`
    /// directly.
    pub fn fly<F: Fn(Vec<i64>) -> Evaluation>(
        &mut self,
        n: usize,
        hp: &HyperParams,
        f: &F,
    ) -> (r: Result<(), crate::SwarmError>)
        requires
            old(self).wf(),
            hp.wf(),
            forall|p: Vec<i64>|
                p.len() == old(self).pos_dim ==> #[trigger] call_requires(*f, (p,)),
        ensures
            final(self).wf(),
            final(self).same_config(old(self)),
            final(self).particles.len() == old(self).particles.len(),
            n == 0 ==> *final(self) == *old(self),
            forall|i: int|
                0 <= i < final(self).particles.len()
                    ==> (#[trigger] final(self).particles@[i]).best_fitness
                    >= old(self).particles@[i].best_fitness,
            r == Ok::<(), crate::SwarmError>(()) && n >= 1 ==> (forall|i: int|
                0 <= i < final(self).particles.len() ==> #[trigger] evaluated_at(
                    *f,
                    final(self).particles@[i],
                )) && leader_is_best(*final(self)),
            (forall|xs: Vec<i64>, out: Evaluation|
                #[trigger] call_ensures(*f, (xs,), out) ==> out.payload.len() == old(
                    self,
                ).payload_dim) ==> r is Ok,
    {
        let mut g: usize = 0;
        while g < n
            invariant
                self.wf(),
                self.same_config(old(self)),
                self.particles.len() == old(self).particles.len(),
                hp.wf(),
                forall|p: Vec<i64>|
                    p.len() == old(self).pos_dim ==> #[trigger] call_requires(*f, (p,)),
                forall|i: int|
                    0 <= i < self.particles.len() ==> (#[trigger] self.particles@[i]).best_fitness
                        >= old(self).particles@[i].best_fitness,
                0 <= g <= n,
                g == 0 ==> *self == *old(self),
                g >= 1 ==> (forall|i: int|
                    0 <= i < self.particles.len() ==> #[trigger] evaluated_at(
                        *f,
                        self.particles@[i],
                    )) && leader_is_best(*self),
            decreases n - g,
        {
            self.update_position(hp);
            let ghost p1 = self.particles@;
            let count = self.particles.len();
            let mut evals: Vec<Evaluation> = Vec::new();
            let mut i: usize = 0;
            while i < count
                invariant
                    self.wf(),
                    self.same_config(old(self)),
                    self.particles.len() == count,
                    self.particles@ == p1,
                    forall|p: Vec<i64>|
                        p.len() == old(self).pos_dim ==> #[trigger] call_requires(*f, (p,)),
                    0 <= i <= count,
                    evals.len() == i,
                    forall|t: int| 0 <= t < i ==> #[trigger] eval_for(*f, p1[t], evals@[t]),
                decreases count - i,
            {
                let xs = copy_vec(&self.particles[i].position);
                let ghost gxs = xs;
                let ev = f(xs);
                evals.push(ev);
                proof {
                    assert(gxs@ == p1[i as int].position@ && call_ensures(
                        *f,
                        (gxs,),
                        evals@[i as int],
                    ));
                    assert(eval_for(*f, p1[i as int], evals@[i as int]));
                }
                i += 1;
            }
            let applied = self.apply_evaluations(&evals);
            match applied {
                Ok(unit) => {
                }
                Err(e) => {
                    proof {
                        if forall|xs: Vec<i64>, out: Evaluation|
                            #[trigger] call_ensures(*f, (xs,), out) ==> out.payload.len() == old(
                            self,
                        ).payload_dim {
                            assert forall|t: int|
                                0 <= t < count implies (#[trigger] evals@[t]).payload.len() == old(
                                self,
                            ).payload_dim by {
                                assert(eval_for(*f, p1[t], evals@[t]));
                                let xs = choose|xs: Vec<i64>|
                                    xs@ == p1[t].position@ && #[trigger] call_ensures(
                                        *f,
                                        (xs,),
                                        evals@[t],
                                    );
                                assert(call_ensures(*f, (xs,), evals@[t]));
                            }
                            assert(false);
                        }
                    }
                    return Err(e);
                }
            }
            let ghost p2 = self.particles@;
            self.finish_generation();
            proof {
                assert forall|i: int| 0 <= i < self.particles.len() implies #[trigger] evaluated_at(
                    *f,
                    self.particles@[i],
                ) by {
                    assert(eval_for(*f, p1[i], evals@[i]));
                    let xs = choose|xs: Vec<i64>|
                        xs@ == p1[i].position@ && #[trigger] call_ensures(*f, (xs,), evals@[i]);
                    assert(self.particles@[i].position@ == p2[i].position@);
                    assert(p2[i].position@ == p1[i].position@);
                    assert(self.particles@[i].fitness == p2[i].fitness);
                    assert(p2[i].fitness == evals@[i].fitness);
                    assert(self.particles@[i].payload@ == evals@[i].payload@);
                    assert(xs@ == self.particles@[i].position@ && call_ensures(
                        *f,
                        (xs,),
                        evals@[i],
                    ) && self.particles@[i].fitness == evals@[i].fitness
                        && self.particles@[i].payload@ == evals@[i].payload@);
                }
                assert(leader_is_best(*self));
            }
            g += 1;
        }
        Ok(())
    }
}

} // verus!
