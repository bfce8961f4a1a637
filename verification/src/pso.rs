//! Configuration values and the swarm engine.

use vstd::prelude::*;
use crate::fitness::{dot_product, fit_bounded, fit_finite, fit_lt, fitness_lt,
    lemma_fit_lt_asymmetric, lemma_fit_lt_irreflexive, Fitness};
use crate::model::{count_at_least, count_enabled, dot, lemma_count_at_least_push,
    lemma_count_enabled_all_false, lemma_count_enabled_all_true, lemma_count_enabled_update,
    lemma_dot_bound, lemma_entry_le_sum, lemma_sum_all_zero, lemma_sum_nonneg, lemma_sum_update,
    normalized, sum_weights, ACCEL_LIMIT, ASSET_EPSILON, COEFF_LIMIT, FIT_LIMIT, MIN_SENTINEL,
    N_LIMIT, RAW_LIMIT, VEL_LIMIT, WEIGHT_SCALE};
use crate::particle::{clone_particle, copy_velocity, copy_weights, fresh_particle, move_raw,
    move_velocity, p_eq, particle_wf, respects_mask, tdiv, uniform_unit_vector, Particle};
use crate::norm::renormalize;

verus! {

/// Swarm update coefficients, in fixed-point: a stored value `c` stands for
/// the real coefficient `c / WEIGHT_SCALE`.
#[derive(Clone, Copy, Debug)]
pub struct PSOHyperparameters {
    pub inertia: i64,
    pub inertia_dampening: i64,
    pub cognitive_acceleration: i64,
    pub social_acceleration: i64,
}

pub open spec fn hp_wf(hp: PSOHyperparameters) -> bool {
    &&& -ACCEL_LIMIT <= hp.inertia <= ACCEL_LIMIT
    &&& -ACCEL_LIMIT <= hp.inertia_dampening <= ACCEL_LIMIT
    &&& -ACCEL_LIMIT <= hp.cognitive_acceleration <= ACCEL_LIMIT
    &&& -ACCEL_LIMIT <= hp.social_acceleration <= ACCEL_LIMIT
}

impl PSOHyperparameters {
    pub fn new(inertia: i64, inertia_dampening: i64, cognitive_acceleration: i64,
        social_acceleration: i64) -> (r: Self)
        ensures
            r == (PSOHyperparameters { inertia, inertia_dampening, cognitive_acceleration,
                social_acceleration }),
    {
        PSOHyperparameters { inertia, inertia_dampening, cognitive_acceleration,
            social_acceleration }
    }
}

/// Search-space constraints: asset count, per-weight bounds (fixed-point
/// fractions of `WEIGHT_SCALE`), and the minimum number of distinctly held
/// assets an admissible position must exceed.
#[derive(Clone, Copy, Debug)]
pub struct PSOConstraints {
    pub n_var: usize,
    pub var_min: u64,
    pub var_max: u64,
    pub min_diff_titles: usize,
}

impl PSOConstraints {
    pub open spec fn wf(self) -> bool {
        &&& 1 <= self.n_var <= N_LIMIT
        &&& 1 <= self.var_min < self.var_max <= 1_000_000_000
        &&& 1 <= self.min_diff_titles <= self.n_var
    }

    pub fn new(n_var: usize, var_min: u64, var_max: u64, min_diff_titles: usize) -> (r: Self)
        ensures
            r == (PSOConstraints { n_var, var_min, var_max, min_diff_titles }),
    {
        PSOConstraints { n_var, var_min, var_max, min_diff_titles }
    }
}

#[derive(Clone, Copy, Debug, PartialEq, Eq, Structural)]
pub enum PSOError {
    ValuesShape,
    RiskShape,
    ParticleShape,
}

/// The soft validity gate: every entry lies between the epoch threshold and
/// the upper bound.  Only candidate moves are held to it.
pub open spec fn soft_valid(pos: Seq<u64>, current_min: int, var_max: u64) -> bool {
    forall|i: int| 0 <= i < pos.len() ==> current_min <= #[trigger] pos[i] <= var_max
}

/// The strict admissibility rule: every entry is either negligible or within
/// the configured bounds, and the count of entries reaching the lower bound
/// exceeds the minimum distinct-asset count.
pub open spec fn strict_valid(pos: Seq<u64>, c: PSOConstraints) -> bool {
    &&& forall|i: int|
        0 <= i < pos.len() ==> ((#[trigger] pos[i] < ASSET_EPSILON || pos[i] >= c.var_min)
            && pos[i] <= c.var_max)
    &&& count_at_least(pos, c.var_min) > c.min_diff_titles
}

/// The exact fitness of a position: the objective dot product over the risk
/// dot product.
pub open spec fn spec_fitness(pos: Seq<u64>, values: Seq<i64>, risk: Seq<i64>) -> Fitness {
    Fitness { num: dot(pos, values) as i128, den: dot(pos, risk) as i128 }
}

pub open spec fn opt_particle_wf(o: Option<Particle>, n: int) -> bool {
    match o {
        Option::Some(p) => particle_wf(p, n),
        Option::None => true,
    }
}

pub open spec fn opt_p_eq(a: Option<Particle>, b: Option<Particle>) -> bool {
    match (a, b) {
        (Option::None, Option::None) => true,
        (Option::Some(x), Option::Some(y)) => p_eq(x, y),
        _ => false,
    }
}

/// The swarm engine.
pub struct ParticleSwarmOptimizer {
    pub constraints: PSOConstraints,
    pub hyperparameters: PSOHyperparameters,
    pub particles: Vec<Particle>,
    pub enabled_assets: Vec<bool>,
    pub values: Vec<i64>,
    pub risk_denominator: Vec<i64>,
    pub best_particle: Particle,
    pub best_valid_particle: Option<Particle>,
    pub current_min: i64,
}

impl ParticleSwarmOptimizer {
    pub open spec fn n(self) -> int {
        self.constraints.n_var as int
    }

    /// The engine invariant: well-formed configuration and inputs, at least
    /// one live asset, and a well-formed population in which removed assets
    /// carry no weight.
    pub open spec fn wf(self) -> bool {
        &&& self.constraints.wf()
        &&& hp_wf(self.hyperparameters)
        &&& self.values@.len() == self.n()
        &&& self.risk_denominator@.len() == self.n()
        &&& forall|i: int|
            0 <= i < self.n() ==> -COEFF_LIMIT <= #[trigger] self.values@[i] <= COEFF_LIMIT
        &&& forall|i: int|
            0 <= i < self.n() ==> -COEFF_LIMIT <= #[trigger] self.risk_denominator@[i]
                <= COEFF_LIMIT
        &&& self.enabled_assets@.len() == self.n()
        &&& count_enabled(self.enabled_assets@) >= 1
        &&& self.particles@.len() >= 1
        &&& forall|k: int|
            0 <= k < self.particles@.len() ==> particle_wf(
                #[trigger] self.particles@[k],
                self.n(),
            )
        &&& forall|k: int|
            0 <= k < self.particles@.len() ==> respects_mask(
                #[trigger] self.particles@[k],
                self.enabled_assets@,
            )
        &&& particle_wf(self.best_particle, self.n())
        &&& opt_particle_wf(self.best_valid_particle, self.n())
    }

    /// The fitness of a position against the engine's input vectors.
    pub fn compute_fitness(&self, x: &Vec<u64>) -> (f: Fitness)
        requires
            self.wf(),
            x@.len() == self.n(),
        ensures
            f == spec_fitness(x@, self.values@, self.risk_denominator@),
            sum_weights(x@) == WEIGHT_SCALE ==> fit_bounded(f),
    {
        let num = dot_product(x, &self.values);
        let den = dot_product(x, &self.risk_denominator);
        proof {
            if sum_weights(x@) == WEIGHT_SCALE {
                lemma_dot_bound(x@, self.values@, COEFF_LIMIT as int);
                lemma_dot_bound(x@, self.risk_denominator@, COEFF_LIMIT as int);
                assert((WEIGHT_SCALE as int) * (COEFF_LIMIT as int) == FIT_LIMIT as int);
            }
        }
        Fitness { num, den }
    }

    /// Scores an externally supplied position.  The only rejection is a
    /// wrong shape; a zero risk dot product yields a non-finite fitness
    /// value, never an error.
    pub fn fitness(&self, particle: &Vec<u64>) -> (r: Result<Fitness, PSOError>)
        requires
            self.wf(),
        ensures
            (r is Ok) <==> particle@.len() == self.n(),
            r matches Ok(f) ==> f == spec_fitness(particle@, self.values@,
                self.risk_denominator@),
            r matches Err(e) ==> e == PSOError::ParticleShape,
    {
        if particle.len() != self.constraints.n_var {
            Err(PSOError::ParticleShape)
        } else {
            Ok(self.compute_fitness(particle))
        }
    }

    /// The soft validity check used to gate candidate moves.
    pub fn is_valid_position(&self, position: &Vec<u64>) -> (r: bool)
        ensures
            r == soft_valid(position@, self.current_min as int, self.constraints.var_max),
    {
        let n = position.len();
        let mut ok = true;
        let mut i: usize = 0;
        while i < n
            invariant
                0 <= i <= n,
                n == position@.len(),
                ok == soft_valid(position@.subrange(0, i as int), self.current_min as int,
                    self.constraints.var_max),
            decreases n - i,
        {
            let v = position[i];
            let lower_ok = if self.current_min <= 0 {
                true
            } else {
                v >= self.current_min as u64
            };
            let this_ok = lower_ok && v <= self.constraints.var_max;
            proof {
                assert(position@.subrange(0, i as int + 1) =~= position@.subrange(
                    0,
                    i as int,
                ).push(position@[i as int]));
                assert(forall|j: int|
                    0 <= j < i + 1 ==> position@.subrange(0, i as int + 1)[j] == position@[j]);
            }
            ok = ok && this_ok;
            i = i + 1;
        }
        proof {
            assert(position@.subrange(0, n as int) =~= position@);
        }
        ok
    }

    /// The strict admissibility check.
    pub fn is_fully_valid_position(&self, position: &Vec<u64>) -> (r: bool)
        ensures
            r == strict_valid(position@, self.constraints),
    {
        let n = position.len();
        let mut ok = true;
        let mut cnt: usize = 0;
        let mut i: usize = 0;
        while i < n
            invariant
                0 <= i <= n,
                n == position@.len(),
                cnt <= i,
                ok == (forall|j: int|
                    0 <= j < i ==> ((#[trigger] position@[j] < ASSET_EPSILON || position@[j]
                        >= self.constraints.var_min) && position@[j]
                        <= self.constraints.var_max)),
                cnt == count_at_least(position@.subrange(0, i as int), self.constraints.var_min),
            decreases n - i,
        {
            let v = position[i];
            proof {
                lemma_count_at_least_push(position@, self.constraints.var_min, i as int);
            }
            ok = ok && ((v < ASSET_EPSILON || v >= self.constraints.var_min) && v
                <= self.constraints.var_max);
            if v >= self.constraints.var_min {
                cnt = cnt + 1;
            }
            i = i + 1;
        }
        proof {
            assert(position@.subrange(0, n as int) =~= position@);
        }
        ok && cnt > self.constraints.min_diff_titles
    }

    /// Tries up to ten freshly drawn candidate moves for one particle and
    /// hands back the first that passes the soft validity gate; yields
    /// nothing when every attempt fails, which leaves the particle parked
    /// for the round (expected move starvation, not an error).
    pub fn generate_valid_move(&self, particle: &Particle) -> (r: Option<(Vec<i64>, Vec<u64>)>)
        requires
            self.wf(),
            particle_wf(*particle, self.n()),
        ensures
            r matches Some((vel, pos)) ==> {
                &&& soft_valid(pos@, self.current_min as int, self.constraints.var_max)
                &&& pos@.len() == self.n()
                &&& vel@.len() == self.n()
                &&& sum_weights(pos@) == WEIGHT_SCALE
                &&& forall|i: int| 0 <= i < pos@.len() ==> #[trigger] pos@[i] <= WEIGHT_SCALE
                &&& forall|i: int|
                    0 <= i < vel@.len() ==> -VEL_LIMIT <= #[trigger] vel@[i] <= VEL_LIMIT
                &&& forall|i: int|
                    0 <= i < self.enabled_assets@.len() && !self.enabled_assets@[i]
                        ==> #[trigger] pos@[i] == 0 && vel@[i] == 0
            },
            r matches Some((vel, pos)) ==> exists|u1: Seq<u64>, u2: Seq<u64>|
                #![trigger move_velocity(*particle, self.best_particle.best_position@, self.hyperparameters, self.enabled_assets@, u1, u2)]
                {
                    &&& u1.len() == self.n()
                    &&& u2.len() == self.n()
                    &&& (forall|i: int| 0 <= i < u1.len() ==> #[trigger] u1[i] <= WEIGHT_SCALE)
                    &&& (forall|i: int| 0 <= i < u2.len() ==> #[trigger] u2[i] <= WEIGHT_SCALE)
                    &&& vel@ == move_velocity(*particle, self.best_particle.best_position@,
                        self.hyperparameters, self.enabled_assets@, u1, u2)
                    &&& pos@ == normalized(move_raw(*particle, vel@, self.enabled_assets@))
                },
            r is None ==> exists|draws: Seq<(Seq<u64>, Seq<u64>)>|
                #[trigger] all_attempts_failed(*self, *particle, draws),
    {
        proof {
            assert forall|k: int| 0 <= k < self.n() implies
                #[trigger] self.best_particle.best_position@[k] <= WEIGHT_SCALE by {
                lemma_entry_le_sum(self.best_particle.best_position@, k);
            }
        }
        let n = self.constraints.n_var;
        let ghost mut draws: Seq<(Seq<u64>, Seq<u64>)> = Seq::empty();
        let mut attempt: usize = 0;
        while attempt < 10
            invariant
                self.wf(),
                particle_wf(*particle, self.n()),
                n == self.constraints.n_var,
                forall|k: int|
                    0 <= k < self.n() ==> #[trigger] self.best_particle.best_position@[k]
                        <= WEIGHT_SCALE,
                attempt <= 10,
                draws.len() == attempt,
                forall|t: int|
                    0 <= t < draws.len() ==> failed_attempt(*self, *particle,
                        (#[trigger] draws[t]).0, draws[t].1),
            decreases 10 - attempt,
        {
            let u1 = uniform_unit_vector(n);
            let u2 = uniform_unit_vector(n);
            match particle.random_move(&self.best_particle.best_position, &self.hyperparameters,
                &self.enabled_assets, &u1, &u2) {
                Some((vel, pos)) => {
                    if self.is_valid_position(&pos) {
                        proof {
                            assert(vel@ == move_velocity(*particle,
                                self.best_particle.best_position@, self.hyperparameters,
                                self.enabled_assets@, u1@, u2@));
                            assert(pos@ == normalized(move_raw(*particle, vel@,
                                self.enabled_assets@)));
                        }
                        return Some((vel, pos));
                    } else {
                        proof {
                            assert(failed_attempt(*self, *particle, u1@, u2@));
                            draws = draws.push((u1@, u2@));
                        }
                    }
                },
                None => {
                    proof {
                        let vel = move_velocity(*particle, self.best_particle.best_position@,
                            self.hyperparameters, self.enabled_assets@, u1@, u2@);
                        lemma_sum_nonneg(move_raw(*particle, vel, self.enabled_assets@));
                        assert(failed_attempt(*self, *particle, u1@, u2@));
                        draws = draws.push((u1@, u2@));
                    }
                },
            }
            attempt = attempt + 1;
        }
        proof {
            assert(all_attempts_failed(*self, *particle, draws));
        }
        None
    }
}

/// The least position entry strictly above the epsilon, or the sentinel
/// when no entry is.
pub open spec fn min_live_entry(pos: Seq<u64>) -> int
    decreases pos.len(),
{
    if pos.len() == 0 {
        MIN_SENTINEL as int
    } else {
        let rest = min_live_entry(pos.drop_last());
        if pos.last() > ASSET_EPSILON && (pos.last() as int) < rest {
            pos.last() as int
        } else {
            rest
        }
    }
}

/// The least live entry across the whole population.
pub open spec fn swarm_min_live(ps: Seq<Particle>) -> int
    decreases ps.len(),
{
    if ps.len() == 0 {
        MIN_SENTINEL as int
    } else {
        let rest = swarm_min_live(ps.drop_last());
        let m = min_live_entry(ps.last().position@);
        if m < rest {
            m
        } else {
            rest
        }
    }
}

pub proof fn lemma_min_live_push(pos: Seq<u64>, j: int)
    requires
        0 <= j < pos.len(),
    ensures
        min_live_entry(pos.subrange(0, j + 1)) == ({
            let rest = min_live_entry(pos.subrange(0, j));
            if pos[j] > ASSET_EPSILON && (pos[j] as int) < rest {
                pos[j] as int
            } else {
                rest
            }
        }),
{
    assert(pos.subrange(0, j + 1).drop_last() =~= pos.subrange(0, j));
    assert(pos.subrange(0, j + 1).last() == pos[j]);
}

pub proof fn lemma_swarm_min_push(ps: Seq<Particle>, k: int)
    requires
        0 <= k < ps.len(),
    ensures
        swarm_min_live(ps.subrange(0, k + 1)) == ({
            let rest = swarm_min_live(ps.subrange(0, k));
            let m = min_live_entry(ps[k].position@);
            if m < rest {
                m
            } else {
                rest
            }
        }),
{
    assert(ps.subrange(0, k + 1).drop_last() =~= ps.subrange(0, k));
    assert(ps.subrange(0, k + 1).last() == ps[k]);
}

/// The smallest still-enabled index.
pub open spec fn first_enabled(m: Seq<bool>) -> int
    decreases m.len(),
{
    if m.len() == 0 {
        0
    } else if m[0] {
        0
    } else {
        1 + first_enabled(m.subrange(1, m.len() as int))
    }
}

pub proof fn lemma_first_enabled_is(m: Seq<bool>, j: int)
    requires
        0 <= j < m.len(),
        m[j],
        forall|k: int| 0 <= k < j ==> !m[k],
    ensures
        first_enabled(m) == j,
    decreases j,
{
    if j == 0 {
    } else {
        let t = m.subrange(1, m.len() as int);
        assert(!m[0]);
        assert(t[j - 1]);
        assert(forall|k: int| 0 <= k < j - 1 ==> !t[k]);
        lemma_first_enabled_is(t, j - 1);
    }
}

/// How one particle changes when asset `i` is eliminated: the entry's
/// weight and velocity are zeroed and the position renormalised back onto
/// the budget; a particle that held all its weight on `i` restarts on the
/// lowest still-enabled asset.
pub open spec fn eliminated_from(po: Particle, pn: Particle, i: int, enabled_after: Seq<bool>)
    -> bool {
    let raw = po.position@.update(i, 0u64);
    &&& pn.velocity@ == po.velocity@.update(i, 0i64)
    &&& pn.best_position@ == po.best_position@
    &&& pn.best_fitness == po.best_fitness
    &&& (sum_weights(raw) > 0 ==> pn.position@ == normalized(raw))
    &&& (sum_weights(raw) == 0 ==> pn.position@ == Seq::new(
        po.position@.len(),
        |j: int|
            if j == first_enabled(enabled_after) {
                WEIGHT_SCALE as u64
            } else {
                0u64
            },
    ))
}

/// One failed candidate draw for `p`: the candidate built from `u1`, `u2`
/// either collapses to zero raw weight or misses the soft validity check.
pub open spec fn failed_attempt(s: ParticleSwarmOptimizer, p: Particle, u1: Seq<u64>,
    u2: Seq<u64>) -> bool {
    let vel = move_velocity(p, s.best_particle.best_position@, s.hyperparameters,
        s.enabled_assets@, u1, u2);
    let raw = move_raw(p, vel, s.enabled_assets@);
    sum_weights(raw) == 0 || !soft_valid(normalized(raw), s.current_min as int,
        s.constraints.var_max)
}

/// Ten draw pairs were made for `p` and every candidate failed.
pub open spec fn all_attempts_failed(s: ParticleSwarmOptimizer, p: Particle,
    draws: Seq<(Seq<u64>, Seq<u64>)>) -> bool {
    &&& draws.len() == 10
    &&& forall|t: int|
        0 <= t < draws.len() ==> failed_attempt(s, p, (#[trigger] draws[t]).0, draws[t].1)
}

/// `i` is the first still-enabled index carrying the least weight in `bp`.
pub open spec fn is_weakest(bp: Seq<u64>, enabled: Seq<bool>, i: int) -> bool {
    &&& 0 <= i < enabled.len()
    &&& enabled[i]
    &&& forall|j: int| 0 <= j < enabled.len() && enabled[j] ==> bp[i] <= #[trigger] bp[j]
    &&& forall|j: int| 0 <= j < i && enabled[j] ==> bp[i] < #[trigger] bp[j]
}

/// At most one index is the weakest, so the elimination step is
/// deterministic.
pub proof fn lemma_weakest_unique(bp: Seq<u64>, enabled: Seq<bool>, i1: int, i2: int)
    requires
        is_weakest(bp, enabled, i1),
        is_weakest(bp, enabled, i2),
    ensures
        i1 == i2,
{
    if i1 < i2 {
        assert(bp[i2] < bp[i1]);
        assert(bp[i1] <= bp[i2]);
    } else if i2 < i1 {
        assert(bp[i1] < bp[i2]);
        assert(bp[i2] <= bp[i1]);
    }
}

/// The better of an incumbent and a challenger; the incumbent stays when the
/// two do not compare strictly.
pub open spec fn better_of(b: Particle, c: Particle) -> Particle {
    if fit_lt(b.best_fitness, c.best_fitness) {
        c
    } else {
        b
    }
}

/// The swarm maximum by remembered best fitness, the later particle winning
/// ties.
pub open spec fn fold_best(ps: Seq<Particle>) -> Particle
    decreases ps.len(),
{
    if ps.len() <= 1 {
        ps[0]
    } else {
        let acc = fold_best(ps.drop_last());
        if fit_lt(ps.last().best_fitness, acc.best_fitness) {
            acc
        } else {
            ps.last()
        }
    }
}

/// The swarm maximum among particles whose current position is strictly
/// valid, if any.
pub open spec fn fold_best_valid(ps: Seq<Particle>, c: PSOConstraints) -> Option<Particle>
    decreases ps.len(),
{
    if ps.len() == 0 {
        Option::None
    } else {
        let rest = fold_best_valid(ps.drop_last(), c);
        if !strict_valid(ps.last().position@, c) {
            rest
        } else {
            match rest {
                Option::None => Option::Some(ps.last()),
                Option::Some(acc) => if fit_lt(ps.last().best_fitness, acc.best_fitness) {
                    Option::Some(acc)
                } else {
                    Option::Some(ps.last())
                },
            }
        }
    }
}

/// How the valid-best tracker advances: an absent challenger changes
/// nothing, an absent incumbent adopts the challenger, and otherwise the
/// better of the two stands.
pub open spec fn merged_best_valid(prev: Option<Particle>, cand: Option<Particle>) -> Option<
    Particle,
> {
    match cand {
        Option::None => prev,
        Option::Some(c) => match prev {
            Option::None => Option::Some(c),
            Option::Some(b) => Option::Some(better_of(b, c)),
        },
    }
}

impl ParticleSwarmOptimizer {
    /// Chooses the asset to eliminate: the first still-enabled index with
    /// the least weight in the best-known particle's position.
    pub fn asset_to_remove(&self) -> (i: usize)
        requires
            self.wf(),
        ensures
            is_weakest(self.best_particle.position@, self.enabled_assets@, i as int),
    {
        let n = self.constraints.n_var;
        let mut best: usize = 0;
        let mut found = false;
        let mut k: usize = 0;
        while k < n
            invariant
                0 <= k <= n,
                self.wf(),
                n == self.constraints.n_var,
                !found ==> forall|j: int| 0 <= j < k ==> !self.enabled_assets@[j],
                found ==> {
                    &&& best < k
                    &&& self.enabled_assets@[best as int]
                    &&& forall|j: int|
                        0 <= j < k && self.enabled_assets@[j]
                            ==> self.best_particle.position@[best as int]
                            <= #[trigger] self.best_particle.position@[j]
                    &&& forall|j: int|
                        0 <= j < best && self.enabled_assets@[j]
                            ==> self.best_particle.position@[best as int]
                            < #[trigger] self.best_particle.position@[j]
                },
            decreases n - k,
        {
            if self.enabled_assets[k] {
                if !found {
                    best = k;
                    found = true;
                } else if self.best_particle.position[k] < self.best_particle.position[best] {
                    best = k;
                }
            }
            k = k + 1;
        }
        proof {
            if !found {
                lemma_count_enabled_all_false(self.enabled_assets@);
            }
        }
        best
    }

    /// Eliminates the weakest still-enabled asset: zeroes its weight and
    /// velocity in every particle, renormalises every position back onto
    /// the budget, refreshes the minimum-entry reduction, and retires the
    /// asset from all future moves.  The chosen index is proven still
    /// enabled, so the fatal already-disabled case cannot arise.
    pub fn remove_asset(&mut self)
        requires
            old(self).wf(),
            count_enabled(old(self).enabled_assets@) >= 2,
        ensures
            final(self).wf(),
            final(self).constraints == old(self).constraints,
            final(self).hyperparameters == old(self).hyperparameters,
            final(self).values == old(self).values,
            final(self).risk_denominator == old(self).risk_denominator,
            final(self).best_particle == old(self).best_particle,
            final(self).best_valid_particle == old(self).best_valid_particle,
            final(self).particles@.len() == old(self).particles@.len(),
            count_enabled(final(self).enabled_assets@) == count_enabled(
                old(self).enabled_assets@,
            ) - 1,
            final(self).current_min == swarm_min_live(final(self).particles@),
            eliminated_swarm(*old(self), *final(self)),
            exists|i: int|
                {
                    &&& #[trigger] is_weakest(old(self).best_particle.position@,
                        old(self).enabled_assets@, i)
                    &&& final(self).enabled_assets@ == old(self).enabled_assets@.update(i, false)
                    &&& forall|k: int|
                        0 <= k < old(self).particles@.len() ==> eliminated_from(
                            #[trigger] old(self).particles@[k],
                            final(self).particles@[k],
                            i,
                            final(self).enabled_assets@,
                        )
                },
    {
        let to_remove = self.asset_to_remove();
        let n = self.constraints.n_var;
        let ghost mask_before = self.enabled_assets@;
        self.enabled_assets[to_remove] = false;
        proof {
            lemma_count_enabled_update(mask_before, to_remove as int);
        }

        let mut fe: usize = n;
        let mut k: usize = 0;
        while k < n
            invariant
                0 <= k <= n,
                fe <= n,
                n == self.enabled_assets@.len(),
                fe == n ==> forall|j: int| 0 <= j < k ==> !self.enabled_assets@[j],
                fe < n ==> (self.enabled_assets@[fe as int] && forall|j: int|
                    0 <= j < fe ==> !self.enabled_assets@[j]),
            decreases n - k,
        {
            if fe == n && self.enabled_assets[k] {
                fe = k;
            }
            k = k + 1;
        }
        proof {
            if fe == n {
                // impossible: at least one asset is still enabled
                lemma_count_enabled_all_false(self.enabled_assets@);
            }
            lemma_first_enabled_is(self.enabled_assets@, fe as int);
        }

        let pop_len = self.particles.len();
        let ghost pold = self.particles@;
        let ghost mask_after = self.enabled_assets@;
        let mut m: i64 = MIN_SENTINEL;
        let mut k: usize = 0;
        while k < pop_len
            invariant
                0 <= k <= pop_len,
                pop_len == self.particles@.len() == pold.len(),
                old(self).wf(),
                n == self.constraints.n_var,
                to_remove < n,
                fe < n,
                self.constraints == old(self).constraints,
                self.hyperparameters == old(self).hyperparameters,
                self.values == old(self).values,
                self.risk_denominator == old(self).risk_denominator,
                self.best_particle == old(self).best_particle,
                self.best_valid_particle == old(self).best_valid_particle,
                self.enabled_assets@ == mask_after,
                mask_after == old(self).enabled_assets@.update(to_remove as int, false),
                is_weakest(old(self).best_particle.position@, old(self).enabled_assets@,
                    to_remove as int),
                count_enabled(mask_after) == count_enabled(old(self).enabled_assets@) - 1,
                mask_after[fe as int],
                fe as int == first_enabled(mask_after),
                pold == old(self).particles@,
                forall|j: int| k <= j < pop_len ==> self.particles@[j] == pold[j],
                forall|j: int|
                    0 <= j < k ==> eliminated_from(#[trigger] pold[j], self.particles@[j],
                        to_remove as int, mask_after),
                forall|j: int|
                    0 <= j < k ==> particle_wf(#[trigger] self.particles@[j], n as int),
                forall|j: int|
                    0 <= j < k ==> respects_mask(#[trigger] self.particles@[j], mask_after),
                m == swarm_min_live(self.particles@.subrange(0, k as int)),
            decreases pop_len - k,
        {
            let ghost pk_old = self.particles@[k as int];
            proof {
                assert(pk_old == old(self).particles@[k as int]);
                assert(particle_wf(pk_old, n as int));
                assert forall|j: int| 0 <= j < n implies #[trigger] pk_old.position@[j]
                    <= WEIGHT_SCALE by {
                    lemma_entry_le_sum(pk_old.position@, j);
                }
            }
            let removed_w = self.particles[k].position[to_remove];
            let mut raw = copy_weights(&self.particles[k].position);
            raw[to_remove] = 0;
            proof {
                lemma_sum_update(pk_old.position@, to_remove as int, 0u64);
                assert(sum_weights(raw@) == WEIGHT_SCALE - removed_w);
            }
            let mut vel = copy_velocity(&self.particles[k].velocity);
            vel[to_remove] = 0;
            let newpos: Vec<u64>;
            if removed_w < WEIGHT_SCALE {
                newpos = renormalize(&raw);
            } else {
                proof {
                    lemma_entry_le_sum(pk_old.position@, to_remove as int);
                }
                let mut z: Vec<u64> = Vec::new();
                let mut j: usize = 0;
                while j < n
                    invariant
                        0 <= j <= n,
                        z@.len() == j,
                        forall|t: int| 0 <= t < j ==> #[trigger] z@[t] == 0,
                    decreases n - j,
                {
                    z.push(0);
                    j = j + 1;
                }
                let ghost z_zero = z@;
                z[fe] = WEIGHT_SCALE;
                proof {
                    lemma_sum_all_zero(z_zero);
                    lemma_sum_update(z_zero, fe as int, WEIGHT_SCALE);
                    assert(z@ =~= Seq::new(
                        pk_old.position@.len(),
                        |t: int|
                            if t == first_enabled(mask_after) {
                                WEIGHT_SCALE as u64
                            } else {
                                0u64
                            },
                    ));
                }
                newpos = z;
            }

            let mut pm: i64 = MIN_SENTINEL;
            let mut j: usize = 0;
            proof {
                assert(newpos@.subrange(0, 0) =~= Seq::<u64>::empty());
            }
            while j < n
                invariant
                    0 <= j <= n,
                    n == newpos@.len(),
                    forall|t: int| 0 <= t < n ==> #[trigger] newpos@[t] <= WEIGHT_SCALE,
                    pm == min_live_entry(newpos@.subrange(0, j as int)),
                decreases n - j,
            {
                proof {
                    lemma_min_live_push(newpos@, j as int);
                }
                let v = newpos[j];
                if v > ASSET_EPSILON && (v as i64) < pm {
                    pm = v as i64;
                }
                j = j + 1;
            }
            proof {
                assert(newpos@.subrange(0, n as int) =~= newpos@);
            }
            if pm < m {
                m = pm;
            }

            let nf = self.particles[k].best_fitness;
            let nbp = copy_weights(&self.particles[k].best_position);
            let ghost particles_before = self.particles@;
            self.particles[k] = Particle {
                position: newpos,
                velocity: vel,
                best_fitness: nf,
                best_position: nbp,
            };
            proof {
                lemma_swarm_min_push(self.particles@, k as int);
                assert(self.particles@.subrange(0, k as int) =~= particles_before.subrange(
                    0,
                    k as int,
                ));
            }
            k = k + 1;
        }
        self.current_min = m;
        proof {
            assert(self.particles@.subrange(0, pop_len as int) =~= self.particles@);
            assert(is_weakest(old(self).best_particle.position@, old(self).enabled_assets@,
                to_remove as int));
        }
    }

    /// The current best-known fitness, for progress observation.
    pub fn current_best_fitness(&self) -> (f: Fitness)
        ensures
            f == self.best_particle.best_fitness,
    {
        self.best_particle.best_fitness
    }

    /// The current best admissible fitness, absent while no admissible
    /// particle has been seen.
    pub fn current_best_valid_fitness(&self) -> (f: Option<Fitness>)
        ensures
            match self.best_valid_particle {
                Option::Some(p) => f == Option::Some(p.best_fitness),
                Option::None => f is None,
            },
    {
        match &self.best_valid_particle {
            Some(p) => Some(p.best_fitness),
            None => None,
        }
    }

    fn current_best_particle(&self) -> (b: Particle)
        requires
            self.wf(),
        ensures
            p_eq(b, fold_best(self.particles@)),
            particle_wf(b, self.n()),
    {
        let mut b = clone_particle(&self.particles[0]);
        let mut k: usize = 1;
        proof {
            assert(self.particles@.subrange(0, 1) =~= self.particles@.subrange(0, 1));
            assert(fold_best(self.particles@.subrange(0, 1)) == self.particles@.subrange(0, 1)[0]);
        }
        while k < self.particles.len()
            invariant
                1 <= k <= self.particles@.len(),
                self.wf(),
                p_eq(b, fold_best(self.particles@.subrange(0, k as int))),
                particle_wf(b, self.n()),
            decreases self.particles@.len() - k,
        {
            proof {
                assert(self.particles@.subrange(0, k as int + 1).drop_last()
                    =~= self.particles@.subrange(0, k as int));
                assert(self.particles@.subrange(0, k as int + 1).last()
                    == self.particles@[k as int]);
            }
            if fitness_lt(&self.particles[k].best_fitness, &b.best_fitness) {
            } else {
                b = clone_particle(&self.particles[k]);
            }
            k = k + 1;
        }
        proof {
            assert(self.particles@.subrange(0, self.particles@.len() as int) =~= self.particles@);
        }
        b
    }

    fn current_best_valid_particle(&self) -> (b: Option<Particle>)
        requires
            self.wf(),
        ensures
            opt_p_eq(b, fold_best_valid(self.particles@, self.constraints)),
            opt_particle_wf(b, self.n()),
    {
        let mut b: Option<Particle> = None;
        let mut k: usize = 0;
        proof {
            assert(self.particles@.subrange(0, 0) =~= Seq::<Particle>::empty());
        }
        while k < self.particles.len()
            invariant
                0 <= k <= self.particles@.len(),
                self.wf(),
                opt_p_eq(b, fold_best_valid(self.particles@.subrange(0, k as int),
                    self.constraints)),
                opt_particle_wf(b, self.n()),
            decreases self.particles@.len() - k,
        {
            proof {
                assert(self.particles@.subrange(0, k as int + 1).drop_last()
                    =~= self.particles@.subrange(0, k as int));
                assert(self.particles@.subrange(0, k as int + 1).last()
                    == self.particles@[k as int]);
            }
            if self.is_fully_valid_position(&self.particles[k].position) {
                match &b {
                    Some(acc) => {
                        if fitness_lt(&self.particles[k].best_fitness, &acc.best_fitness) {
                        } else {
                            b = Some(clone_particle(&self.particles[k]));
                        }
                    },
                    None => {
                        b = Some(clone_particle(&self.particles[k]));
                    },
                }
            }
            k = k + 1;
        }
        proof {
            assert(self.particles@.subrange(0, self.particles@.len() as int) =~= self.particles@);
        }
        b
    }

    /// One best-tracking round: folds the population's maxima into the two
    /// trackers.  The best-known fitness never decreases, nor does the best
    /// admissible one while present.
    pub fn retrieve_best_particle(&mut self)
        requires
            old(self).wf(),
        ensures
            final(self).wf(),
            final(self).constraints == old(self).constraints,
            final(self).hyperparameters == old(self).hyperparameters,
            final(self).particles == old(self).particles,
            final(self).enabled_assets == old(self).enabled_assets,
            final(self).values == old(self).values,
            final(self).risk_denominator == old(self).risk_denominator,
            final(self).current_min == old(self).current_min,
            p_eq(final(self).best_particle, better_of(old(self).best_particle,
                fold_best(old(self).particles@))),
            opt_p_eq(final(self).best_valid_particle, merged_best_valid(
                old(self).best_valid_particle,
                fold_best_valid(old(self).particles@, old(self).constraints),
            )),
            tracked_swarm(*old(self), *final(self)),
            !fit_lt(final(self).best_particle.best_fitness, old(self).best_particle.best_fitness),
            old(self).best_valid_particle matches Some(b) ==> (final(self).best_valid_particle
                matches Some(nb) && !fit_lt(nb.best_fitness, b.best_fitness)),
    {
        proof {
            lemma_fit_lt_irreflexive(old(self).best_particle.best_fitness);
        }
        let cand = self.current_best_particle();
        proof {
            lemma_fit_lt_asymmetric(old(self).best_particle.best_fitness, cand.best_fitness);
        }
        if fitness_lt(&self.best_particle.best_fitness, &cand.best_fitness) {
            self.best_particle = cand;
        }
        let vcand = self.current_best_valid_particle();
        match vcand {
            Some(c) => {
                match &self.best_valid_particle {
                    Some(b) => {
                        proof {
                            lemma_fit_lt_asymmetric(b.best_fitness, c.best_fitness);
                        }
                        if fitness_lt(&b.best_fitness, &c.best_fitness) {
                            self.best_valid_particle = Some(c);
                        } else {
                            proof {
                                lemma_fit_lt_irreflexive(c.best_fitness);
                            }
                        }
                    },
                    None => {
                        self.best_valid_particle = Some(c);
                    },
                }
            },
            None => {},
        }
    }
}

/// How one particle may change in one update round: either it is left
/// unchanged (move starvation), or it commits a soft-valid candidate whose
/// fitness was evaluated at the candidate position.
pub open spec fn iterated_particle(po: Particle, pn: Particle, cm: int, c: PSOConstraints,
    values: Seq<i64>, risk: Seq<i64>) -> bool {
    ||| p_eq(pn, po)
    ||| {
        let f = spec_fitness(pn.position@, values, risk);
        &&& soft_valid(pn.position@, cm, c.var_max)
        &&& sum_weights(pn.position@) == WEIGHT_SCALE
        &&& (fit_lt(po.best_fitness, f) ==> pn.best_fitness == f && pn.best_position@
            == pn.position@)
        &&& (!fit_lt(po.best_fitness, f) ==> pn.best_fitness == po.best_fitness
            && pn.best_position@ == po.best_position@)
    }
}

/// How one particle changes when its fitness is refreshed in place: the
/// position and velocity stay, and the personal best moves only on a strict
/// improvement.
pub open spec fn refreshed_particle(po: Particle, pn: Particle, values: Seq<i64>,
    risk: Seq<i64>) -> bool {
    let f = spec_fitness(po.position@, values, risk);
    &&& pn.position@ == po.position@
    &&& pn.velocity@ == po.velocity@
    &&& (fit_lt(po.best_fitness, f) ==> pn.best_fitness == f && pn.best_position@
        == po.position@)
    &&& (!fit_lt(po.best_fitness, f) ==> pn.best_fitness == po.best_fitness
        && pn.best_position@ == po.best_position@)
}

/// The two engine states around one particle-update round: the
/// configuration, the mask, the threshold and both trackers stand, and
/// every particle makes one `iterated_particle` step.
pub open spec fn stepped_swarm(pre: ParticleSwarmOptimizer, post: ParticleSwarmOptimizer)
    -> bool {
    &&& post.constraints == pre.constraints
    &&& post.hyperparameters == pre.hyperparameters
    &&& post.enabled_assets@ == pre.enabled_assets@
    &&& post.values@ == pre.values@
    &&& post.risk_denominator@ == pre.risk_denominator@
    &&& post.current_min == pre.current_min
    &&& p_eq(post.best_particle, pre.best_particle)
    &&& opt_p_eq(post.best_valid_particle, pre.best_valid_particle)
    &&& post.particles@.len() == pre.particles@.len()
    &&& forall|k: int|
        0 <= k < pre.particles@.len() ==> iterated_particle(
            #[trigger] pre.particles@[k],
            post.particles@[k],
            pre.current_min as int,
            pre.constraints,
            pre.values@,
            pre.risk_denominator@,
        )
}

/// The two engine states around one best-tracking fold: everything stands
/// but the two trackers, which absorb the population's maxima.
pub open spec fn tracked_swarm(pre: ParticleSwarmOptimizer, post: ParticleSwarmOptimizer)
    -> bool {
    &&& post.constraints == pre.constraints
    &&& post.hyperparameters == pre.hyperparameters
    &&& post.enabled_assets@ == pre.enabled_assets@
    &&& post.values@ == pre.values@
    &&& post.risk_denominator@ == pre.risk_denominator@
    &&& post.current_min == pre.current_min
    &&& post.particles@ == pre.particles@
    &&& p_eq(post.best_particle, better_of(pre.best_particle, fold_best(pre.particles@)))
    &&& opt_p_eq(post.best_valid_particle, merged_best_valid(
        pre.best_valid_particle,
        fold_best_valid(pre.particles@, pre.constraints),
    ))
}

/// The two engine states around one fitness refresh with its tracking fold.
pub open spec fn refreshed_swarm(pre: ParticleSwarmOptimizer, post: ParticleSwarmOptimizer)
    -> bool {
    &&& post.constraints == pre.constraints
    &&& post.hyperparameters == pre.hyperparameters
    &&& post.enabled_assets@ == pre.enabled_assets@
    &&& post.values@ == pre.values@
    &&& post.risk_denominator@ == pre.risk_denominator@
    &&& post.current_min == pre.current_min
    &&& post.particles@.len() == pre.particles@.len()
    &&& forall|k: int|
        0 <= k < pre.particles@.len() ==> refreshed_particle(
            #[trigger] pre.particles@[k],
            post.particles@[k],
            pre.values@,
            pre.risk_denominator@,
        )
    &&& p_eq(post.best_particle, better_of(pre.best_particle, fold_best(post.particles@)))
    &&& opt_p_eq(post.best_valid_particle, merged_best_valid(
        pre.best_valid_particle,
        fold_best_valid(post.particles@, pre.constraints),
    ))
}

/// The two engine states around one asset elimination.
pub open spec fn eliminated_swarm(pre: ParticleSwarmOptimizer, post: ParticleSwarmOptimizer)
    -> bool {
    &&& post.constraints == pre.constraints
    &&& post.hyperparameters == pre.hyperparameters
    &&& post.values@ == pre.values@
    &&& post.risk_denominator@ == pre.risk_denominator@
    &&& p_eq(post.best_particle, pre.best_particle)
    &&& opt_p_eq(post.best_valid_particle, pre.best_valid_particle)
    &&& post.particles@.len() == pre.particles@.len()
    &&& count_enabled(post.enabled_assets@) == count_enabled(pre.enabled_assets@) - 1
    &&& post.current_min == swarm_min_live(post.particles@)
    &&& exists|i: int|
        {
            &&& #[trigger] is_weakest(pre.best_particle.position@, pre.enabled_assets@, i)
            &&& post.enabled_assets@ == pre.enabled_assets@.update(i, false)
            &&& forall|k: int|
                0 <= k < pre.particles@.len() ==> eliminated_from(
                    #[trigger] pre.particles@[k],
                    post.particles@[k],
                    i,
                    post.enabled_assets@,
                )
        }
}

/// The value recorded after a round: the best admissible fitness when one
/// has been seen, else the best-known fitness.
pub open spec fn recorded_fitness(s: ParticleSwarmOptimizer) -> Fitness {
    match s.best_valid_particle {
        Option::Some(b) => b.best_fitness,
        Option::None => s.best_particle.best_fitness,
    }
}

/// One full recorded round: a particle-update step, then a tracking fold,
/// and the recorded value is the post-round tracker reading.
pub open spec fn round_rel(pre: ParticleSwarmOptimizer, post: ParticleSwarmOptimizer,
    entry: Fitness) -> bool {
    &&& exists|mid: ParticleSwarmOptimizer|
        #![trigger stepped_swarm(pre, mid)]
        stepped_swarm(pre, mid) && tracked_swarm(mid, post)
    &&& entry == recorded_fitness(post)
}

/// A chain of recorded rounds, one per entry.
pub open spec fn rounds_rel(pre: ParticleSwarmOptimizer, post: ParticleSwarmOptimizer,
    entries: Seq<Fitness>) -> bool
    decreases entries.len(),
{
    if entries.len() == 0 {
        post == pre
    } else {
        exists|mid: ParticleSwarmOptimizer|
            #![trigger round_rel(mid, post, entries.last())]
            rounds_rel(pre, mid, entries.drop_last()) && round_rel(mid, post, entries.last())
    }
}

/// One whole epoch from the state at its start: a fitness refresh, the
/// recorded rounds, one elimination, and a final tracking fold.
pub open spec fn epoch_rel(pre: ParticleSwarmOptimizer, post: ParticleSwarmOptimizer,
    entries: Seq<Fitness>) -> bool {
    exists|s1: ParticleSwarmOptimizer, s2: ParticleSwarmOptimizer, s3: ParticleSwarmOptimizer|
        #![trigger refreshed_swarm(pre, s1), rounds_rel(s1, s2, entries), eliminated_swarm(s2, s3)]
        refreshed_swarm(pre, s1) && rounds_rel(s1, s2, entries) && eliminated_swarm(s2, s3)
            && tracked_swarm(s3, post)
}

/// The two engine states around setting the soft-validity floor for epoch
/// `e`.
pub open spec fn threshold_set(pre: ParticleSwarmOptimizer, post: ParticleSwarmOptimizer,
    e: int) -> bool {
    &&& post.constraints == pre.constraints
    &&& post.hyperparameters == pre.hyperparameters
    &&& post.enabled_assets@ == pre.enabled_assets@
    &&& post.values@ == pre.values@
    &&& post.risk_denominator@ == pre.risk_denominator@
    &&& post.particles@ == pre.particles@
    &&& p_eq(post.best_particle, pre.best_particle)
    &&& opt_p_eq(post.best_valid_particle, pre.best_valid_particle)
    &&& post.current_min == epoch_threshold(e, pre.constraints)
}

/// The first `e` epochs of a run, `ipe` recorded rounds each: before every
/// epoch the threshold is set by the schedule, and the entries are exactly
/// the rounds' recorded values in order.
pub open spec fn epochs_rel(pre: ParticleSwarmOptimizer, post: ParticleSwarmOptimizer, ipe: int,
    e: int, entries: Seq<Fitness>) -> bool
    decreases e,
{
    if e <= 0 {
        post == pre && entries.len() == 0
    } else {
        &&& entries.len() == e * ipe
        &&& exists|m1: ParticleSwarmOptimizer, m2: ParticleSwarmOptimizer|
            #![trigger threshold_set(m1, m2, e - 1)]
            epochs_rel(pre, m1, ipe, e - 1, entries.subrange(0, (e - 1) * ipe)) && threshold_set(
                m1,
                m2,
                e - 1,
            ) && epoch_rel(m2, post, entries.subrange((e - 1) * ipe, e * ipe))
    }
}

/// The soft-validity floor for an epoch: `min(epoch, cap) / 100` of the
/// lower bound, with `cap = n_var - floor(1 / var_min)` in fixed-point
/// terms.  The value may be negative, in which case every weight passes the
/// soft check.
pub open spec fn epoch_threshold(e: int, c: PSOConstraints) -> int {
    let cap = c.n_var - (WEIGHT_SCALE as int) / (c.var_min as int);
    let m = if e < cap {
        e
    } else {
        cap
    };
    tdiv(m * (c.var_min as int), 100)
}

pub fn compute_epoch_threshold(e: usize, c: &PSOConstraints) -> (t: i64)
    requires
        c.wf(),
        e <= N_LIMIT,
    ensures
        t as int == epoch_threshold(e as int, *c),
{
    let cap_q: u64 = WEIGHT_SCALE / c.var_min;
    let cap: i64 = c.n_var as i64 - cap_q as i64;
    let m: i64 = if (e as i64) < cap {
        e as i64
    } else {
        cap
    };
    if m >= 0 {
        proof {
            assert((m as int) * (c.var_min as int) <= 1_000_000 * 1_000_000_000)
                by (nonlinear_arith)
                requires
                    0 <= m as int <= 1_000_000,
                    0 <= c.var_min as int <= 1_000_000_000,
            ;
            vstd::arithmetic::div_mod::lemma_div_nonincreasing((m as int) * (c.var_min as int),
                100);
            vstd::arithmetic::div_mod::lemma_div_pos_is_pos((m as int) * (c.var_min as int), 100);
            assert((m as int) * (c.var_min as int) >= 0) by (nonlinear_arith)
                requires
                    m as int >= 0,
                    c.var_min as int >= 0,
            ;
        }
        (((m as u64 as u128) * (c.var_min as u128) / 100) as u64) as i64
    } else {
        let ma: u64 = (-m) as u64;
        proof {
            assert((ma as int) * (c.var_min as int) <= 1_000_000 * 1_000_000_000)
                by (nonlinear_arith)
                requires
                    0 <= ma as int <= 1_000_000,
                    0 <= c.var_min as int <= 1_000_000_000,
            ;
            vstd::arithmetic::div_mod::lemma_div_nonincreasing((ma as int) * (c.var_min as int),
                100);
            vstd::arithmetic::div_mod::lemma_div_pos_is_pos((ma as int) * (c.var_min as int),
                100);
            assert((ma as int) * (c.var_min as int) == -((m as int) * (c.var_min as int)))
                by (nonlinear_arith)
                requires
                    ma as int == -(m as int),
            ;
        }
        -((((ma as u128) * (c.var_min as u128) / 100) as u64) as i64)
    }
}

/// What one whole run hands back.
pub struct RunOutcome {
    pub best_position: Vec<u64>,
    pub history: Vec<Fitness>,
    pub valid_found: bool,
}

impl ParticleSwarmOptimizer {
    /// One swarm update round: every particle tries up to ten candidate
    /// moves and commits the first soft-valid one, scored at its own
    /// position; a particle with no acceptable candidate is left unchanged.
    /// No personal best ever decreases.
    pub fn iterate(&mut self)
        requires
            old(self).wf(),
        ensures
            final(self).wf(),
            final(self).constraints == old(self).constraints,
            final(self).hyperparameters == old(self).hyperparameters,
            final(self).enabled_assets == old(self).enabled_assets,
            final(self).values == old(self).values,
            final(self).risk_denominator == old(self).risk_denominator,
            final(self).best_particle == old(self).best_particle,
            final(self).best_valid_particle == old(self).best_valid_particle,
            final(self).current_min == old(self).current_min,
            final(self).particles@.len() == old(self).particles@.len(),
            forall|k: int|
                0 <= k < old(self).particles@.len() ==> iterated_particle(
                    #[trigger] old(self).particles@[k],
                    final(self).particles@[k],
                    old(self).current_min as int,
                    old(self).constraints,
                    old(self).values@,
                    old(self).risk_denominator@,
                ),
            forall|k: int|
                0 <= k < old(self).particles@.len() ==> !fit_lt(
                    final(self).particles@[k].best_fitness,
                    #[trigger] old(self).particles@[k].best_fitness,
                ),
            stepped_swarm(*old(self), *final(self)),
    {
        let pop_len = self.particles.len();
        let ghost pold = self.particles@;
        let mut k: usize = 0;
        while k < pop_len
            invariant
                0 <= k <= pop_len,
                pop_len == self.particles@.len() == pold.len(),
                old(self).wf(),
                self.wf(),
                self.constraints == old(self).constraints,
                self.hyperparameters == old(self).hyperparameters,
                self.enabled_assets == old(self).enabled_assets,
                self.values == old(self).values,
                self.risk_denominator == old(self).risk_denominator,
                self.best_particle == old(self).best_particle,
                self.best_valid_particle == old(self).best_valid_particle,
                self.current_min == old(self).current_min,
                pold == old(self).particles@,
                forall|j: int| k <= j < pop_len ==> self.particles@[j] == pold[j],
                forall|j: int|
                    0 <= j < k ==> iterated_particle(#[trigger] pold[j], self.particles@[j],
                        old(self).current_min as int, old(self).constraints, old(self).values@,
                        old(self).risk_denominator@),
                forall|j: int|
                    0 <= j < k ==> !fit_lt(self.particles@[j].best_fitness,
                        #[trigger] pold[j].best_fitness),
            decreases pop_len - k,
        {
            let ghost pk_old = self.particles@[k as int];
            proof {
                assert(pk_old == old(self).particles@[k as int]);
                lemma_fit_lt_irreflexive(pk_old.best_fitness);
            }
            let p = clone_particle(&self.particles[k]);
            proof {
                assert(particle_wf(p, self.n()));
            }
            match self.generate_valid_move(&p) {
                Some((vel, pos)) => {
                    let f = self.compute_fitness(&pos);
                    let mut pc = p;
                    pc.apply_move(pos, vel, f);
                    self.particles[k] = pc;
                },
                None => {},
            }
            k = k + 1;
        }
    }

    /// Refreshes every particle's personal best against its current
    /// position, then folds the population into the two best trackers.
    fn initialize(&mut self)
        requires
            old(self).wf(),
        ensures
            final(self).wf(),
            final(self).constraints == old(self).constraints,
            final(self).hyperparameters == old(self).hyperparameters,
            final(self).enabled_assets == old(self).enabled_assets,
            final(self).values == old(self).values,
            final(self).risk_denominator == old(self).risk_denominator,
            final(self).current_min == old(self).current_min,
            final(self).particles@.len() == old(self).particles@.len(),
            forall|k: int|
                0 <= k < old(self).particles@.len() ==> refreshed_particle(
                    #[trigger] old(self).particles@[k],
                    final(self).particles@[k],
                    old(self).values@,
                    old(self).risk_denominator@,
                ),
            p_eq(final(self).best_particle, better_of(old(self).best_particle,
                fold_best(final(self).particles@))),
            opt_p_eq(final(self).best_valid_particle, merged_best_valid(
                old(self).best_valid_particle,
                fold_best_valid(final(self).particles@, old(self).constraints),
            )),
            refreshed_swarm(*old(self), *final(self)),
    {
        let pop_len = self.particles.len();
        let ghost pold = self.particles@;
        let mut k: usize = 0;
        while k < pop_len
            invariant
                0 <= k <= pop_len,
                pop_len == self.particles@.len() == pold.len(),
                old(self).wf(),
                self.wf(),
                self.constraints == old(self).constraints,
                self.hyperparameters == old(self).hyperparameters,
                self.enabled_assets == old(self).enabled_assets,
                self.values == old(self).values,
                self.risk_denominator == old(self).risk_denominator,
                self.best_particle == old(self).best_particle,
                self.best_valid_particle == old(self).best_valid_particle,
                self.current_min == old(self).current_min,
                pold == old(self).particles@,
                forall|j: int| k <= j < pop_len ==> self.particles@[j] == pold[j],
                forall|j: int|
                    0 <= j < k ==> refreshed_particle(#[trigger] pold[j], self.particles@[j],
                        old(self).values@, old(self).risk_denominator@),
            decreases pop_len - k,
        {
            let ghost pk_old = self.particles@[k as int];
            proof {
                assert(pk_old == old(self).particles@[k as int]);
            }
            let p = clone_particle(&self.particles[k]);
            proof {
                assert(particle_wf(p, self.n()));
            }
            let pos = copy_weights(&p.position);
            let vel = copy_velocity(&p.velocity);
            let f = self.compute_fitness(&pos);
            let mut pc = p;
            pc.apply_move(pos, vel, f);
            self.particles[k] = pc;
            k = k + 1;
        }
        self.retrieve_best_particle();
    }

    /// One epoch: refresh, then the configured number of update rounds with
    /// best tracking and history recording after each, then one asset
    /// elimination and a final tracking pass.
    fn run_iteration(&mut self, nb_iterations: usize, history: &mut Vec<Fitness>)
        requires
            old(self).wf(),
            count_enabled(old(self).enabled_assets@) >= 2,
        ensures
            final(self).wf(),
            final(self).constraints == old(self).constraints,
            final(self).hyperparameters == old(self).hyperparameters,
            final(self).values == old(self).values,
            final(self).risk_denominator == old(self).risk_denominator,
            count_enabled(final(self).enabled_assets@) == count_enabled(
                old(self).enabled_assets@,
            ) - 1,
            final(history)@.len() == old(history)@.len() + nb_iterations,
            forall|t: int|
                0 <= t < old(history)@.len() ==> #[trigger] final(history)@[t]
                    == old(history)@[t],
            forall|t: int|
                old(history)@.len() <= t < final(history)@.len() ==> fit_finite(
                    #[trigger] final(history)@[t],
                ) && fit_bounded(final(history)@[t]),
            epoch_rel(*old(self), *final(self), final(history)@.subrange(
                old(history)@.len() as int,
                final(history)@.len() as int,
            )),
    {
        self.initialize();
        let ghost s1 = *self;
        let ghost base = old(history)@.len() as int;
        proof {
            assert(history@.subrange(base, base) =~= Seq::<Fitness>::empty());
        }
        let mut it: usize = 0;
        while it < nb_iterations
            invariant
                0 <= it <= nb_iterations,
                self.wf(),
                self.constraints == old(self).constraints,
                self.hyperparameters == old(self).hyperparameters,
                self.values == old(self).values,
                self.risk_denominator == old(self).risk_denominator,
                count_enabled(self.enabled_assets@) == count_enabled(old(self).enabled_assets@),
                count_enabled(old(self).enabled_assets@) >= 2,
                base == old(history)@.len(),
                history@.len() == old(history)@.len() + it,
                forall|t: int|
                    0 <= t < old(history)@.len() ==> #[trigger] history@[t] == old(history)@[t],
                forall|t: int|
                    old(history)@.len() <= t < history@.len() ==> fit_finite(
                        #[trigger] history@[t],
                    ) && fit_bounded(history@[t]),
                rounds_rel(s1, *self, history@.subrange(base, history@.len() as int)),
            decreases nb_iterations - it,
        {
            let ghost pre_round = *self;
            self.iterate();
            let ghost mid = *self;
            self.retrieve_best_particle();
            let entry = match &self.best_valid_particle {
                Some(b) => b.best_fitness,
                None => self.best_particle.best_fitness,
            };
            let ghost hist_before = history@;
            history.push(entry);
            proof {
                assert(stepped_swarm(pre_round, mid));
                assert(tracked_swarm(mid, *self));
                assert(entry == recorded_fitness(*self));
                assert(round_rel(pre_round, *self, entry));
                let grown = history@.subrange(base, history@.len() as int);
                assert(grown.drop_last() =~= hist_before.subrange(base, hist_before.len() as int));
                assert(grown.last() == entry);
                assert(rounds_rel(s1, pre_round, grown.drop_last()));
                assert(round_rel(pre_round, *self, grown.last()));
                assert(grown.len() > 0);
                assert(rounds_rel(s1, *self, grown));
            }
            it = it + 1;
        }
        let ghost s2 = *self;
        self.remove_asset();
        let ghost s3 = *self;
        self.retrieve_best_particle();
        proof {
            assert(refreshed_swarm(*old(self), s1));
            assert(eliminated_swarm(s2, s3));
            assert(tracked_swarm(s3, *self));
            assert(rounds_rel(s1, s2, history@.subrange(base, history@.len() as int)));
            assert(epoch_rel(*old(self), *self, history@.subrange(base, history@.len() as int)));
        }
    }

    /// The whole multi-epoch run: `n_var - min_diff_titles` elimination
    /// epochs of `iteration_per_epoch` update rounds each, chained in
    /// `epochs_rel` with the threshold schedule applied before every epoch.
    /// Hands back the best admissible position (or the best-known one,
    /// flagged, when no admissible particle was ever seen) and the
    /// per-round fitness history.  The returned position is the tracker's
    /// snapshot and may keep weight on assets eliminated after the snapshot
    /// was taken.
    pub fn run(&mut self, iteration_per_epoch: usize) -> (r: RunOutcome)
        requires
            old(self).wf(),
            iteration_per_epoch >= 1,
            count_enabled(old(self).enabled_assets@) == old(self).constraints.n_var as int,
        ensures
            final(self).wf(),
            r.history@.len() == (old(self).constraints.n_var
                - old(self).constraints.min_diff_titles) * iteration_per_epoch,
            forall|t: int|
                0 <= t < r.history@.len() ==> fit_finite(#[trigger] r.history@[t]) && fit_bounded(
                    r.history@[t],
                ),
            count_enabled(final(self).enabled_assets@)
                == old(self).constraints.min_diff_titles as int,
            r.best_position@.len() == old(self).constraints.n_var,
            sum_weights(r.best_position@) == WEIGHT_SCALE,
            r.valid_found == (final(self).best_valid_particle is Some),
            final(self).best_valid_particle matches Some(b) ==> r.best_position@ == b.position@,
            final(self).best_valid_particle is None ==> r.best_position@
                == final(self).best_particle.position@,
            epochs_rel(*old(self), *final(self), iteration_per_epoch as int,
                old(self).constraints.n_var - old(self).constraints.min_diff_titles, r.history@),
    {
        let epoch_count = self.constraints.n_var - self.constraints.min_diff_titles;
        let mut history: Vec<Fitness> = Vec::new();
        let mut e: usize = 0;
        while e < epoch_count
            invariant
                0 <= e <= epoch_count,
                self.wf(),
                iteration_per_epoch >= 1,
                self.constraints == old(self).constraints,
                self.hyperparameters == old(self).hyperparameters,
                self.values == old(self).values,
                self.risk_denominator == old(self).risk_denominator,
                epoch_count == self.constraints.n_var - self.constraints.min_diff_titles,
                count_enabled(self.enabled_assets@) == self.constraints.n_var - e,
                history@.len() == e * iteration_per_epoch,
                forall|t: int|
                    0 <= t < history@.len() ==> fit_finite(#[trigger] history@[t]) && fit_bounded(
                        history@[t],
                    ),
                epochs_rel(*old(self), *self, iteration_per_epoch as int, e as int, history@),
            decreases epoch_count - e,
        {
            let ghost m1 = *self;
            let ghost hist_before = history@;
            let cm = compute_epoch_threshold(e, &self.constraints);
            self.current_min = cm;
            let ghost m2 = *self;
            self.run_iteration(iteration_per_epoch, &mut history);
            proof {
                let ipe = iteration_per_epoch as int;
                assert(((e as int) + 1) * ipe == (e as int) * ipe + ipe) by (nonlinear_arith);
                assert(threshold_set(m1, m2, e as int));
                assert(epoch_rel(m2, *self, history@.subrange(
                    hist_before.len() as int,
                    history@.len() as int,
                )));
                assert(history@.subrange(0, hist_before.len() as int) =~= hist_before);
                assert(epochs_rel(*old(self), m1, ipe, e as int, history@.subrange(
                    0,
                    (e as int) * ipe,
                )));
                assert(epochs_rel(*old(self), *self, ipe, (e as int) + 1, history@)) by {
                    assert(epochs_rel(*old(self), m1, ipe, ((e as int) + 1) - 1,
                        history@.subrange(0, (((e as int) + 1) - 1) * ipe)) && threshold_set(m1,
                        m2, ((e as int) + 1) - 1) && epoch_rel(m2, *self, history@.subrange(
                        (((e as int) + 1) - 1) * ipe,
                        ((e as int) + 1) * ipe,
                    )));
                };
            }
            e = e + 1;
        }
        let valid_found: bool;
        let best_position: Vec<u64>;
        match &self.best_valid_particle {
            Some(b) => {
                valid_found = true;
                best_position = copy_weights(&b.position);
            },
            None => {
                valid_found = false;
                best_position = copy_weights(&self.best_particle.position);
            },
        }
        RunOutcome { best_position, history, valid_found }
    }

    /// Builds the engine: validates the input vector shapes, draws the
    /// random initial population, and starts with every asset enabled and
    /// no admissible best.
    pub fn new(population_size: usize, hyperparameters: PSOHyperparameters,
        constraints: PSOConstraints, values: Vec<i64>, risk_denominator: Vec<i64>) -> (r: Result<
        ParticleSwarmOptimizer,
        PSOError,
    >)
        requires
            population_size >= 1,
            constraints.wf(),
            hp_wf(hyperparameters),
            forall|i: int|
                0 <= i < values@.len() ==> -COEFF_LIMIT <= #[trigger] values@[i] <= COEFF_LIMIT,
            forall|i: int|
                0 <= i < risk_denominator@.len() ==> -COEFF_LIMIT
                    <= #[trigger] risk_denominator@[i] <= COEFF_LIMIT,
        ensures
            (r is Ok) <==> (values@.len() == constraints.n_var && risk_denominator@.len()
                == constraints.n_var),
            r matches Ok(o) ==> {
                &&& o.wf()
                &&& o.constraints == constraints
                &&& o.hyperparameters == hyperparameters
                &&& o.values@ == values@
                &&& o.risk_denominator@ == risk_denominator@
                &&& o.particles@.len() == population_size
                &&& forall|k: int|
                    0 <= k < population_size ==> fresh_particle(#[trigger] o.particles@[k])
                &&& fresh_particle(o.best_particle)
                &&& count_enabled(o.enabled_assets@) == constraints.n_var as int
                &&& o.best_valid_particle is None
                &&& o.current_min == 0
            },
            r matches Err(err) ==> if values@.len() != constraints.n_var {
                err == PSOError::ValuesShape
            } else {
                err == PSOError::RiskShape
            },
    {
        if values.len() != constraints.n_var {
            return Err(PSOError::ValuesShape);
        }
        if risk_denominator.len() != constraints.n_var {
            return Err(PSOError::RiskShape);
        }
        let mut particles: Vec<Particle> = Vec::new();
        let mut k: usize = 0;
        while k < population_size
            invariant
                0 <= k <= population_size,
                constraints.wf(),
                particles@.len() == k,
                forall|j: int|
                    0 <= j < k ==> particle_wf(#[trigger] particles@[j],
                        constraints.n_var as int),
                forall|j: int| 0 <= j < k ==> fresh_particle(#[trigger] particles@[j]),
            decreases population_size - k,
        {
            particles.push(Particle::create_random_particle(&constraints));
            k = k + 1;
        }
        let mut enabled_assets: Vec<bool> = Vec::new();
        let mut k: usize = 0;
        while k < constraints.n_var
            invariant
                0 <= k <= constraints.n_var,
                enabled_assets@.len() == k,
                forall|j: int| 0 <= j < k ==> #[trigger] enabled_assets@[j],
            decreases constraints.n_var - k,
        {
            enabled_assets.push(true);
            k = k + 1;
        }
        proof {
            lemma_count_enabled_all_true(enabled_assets@);
        }
        let best_particle = Particle::create_random_particle(&constraints);
        Ok(ParticleSwarmOptimizer {
            constraints,
            hyperparameters,
            particles,
            enabled_assets,
            values,
            risk_denominator,
            best_particle,
            best_valid_particle: None,
            current_min: 0,
        })
    }
}

/// In every well-formed engine state, every particle's position and
/// velocity have the configured length, its weights sum to exactly the
/// budget, and an asset that has been removed carries zero weight and zero
/// velocity in every particle.
pub proof fn lemma_swarm_invariants(s: ParticleSwarmOptimizer)
    requires
        s.wf(),
    ensures
        forall|k: int|
            0 <= k < s.particles@.len() ==> (#[trigger] s.particles@[k]).position@.len() == s.n()
                && s.particles@[k].velocity@.len() == s.n() && sum_weights(
                s.particles@[k].position@,
            ) == WEIGHT_SCALE,
        forall|k: int, i: int|
            0 <= k < s.particles@.len() && 0 <= i < s.n() && !s.enabled_assets@[i]
                ==> #[trigger] s.particles@[k].position@[i] == 0
                && #[trigger] s.particles@[k].velocity@[i] == 0,
{
    assert forall|k: int, i: int|
        0 <= k < s.particles@.len() && 0 <= i < s.n() && !s.enabled_assets@[i]
            implies #[trigger] s.particles@[k].position@[i] == 0
            && #[trigger] s.particles@[k].velocity@[i] == 0 by {
        let p = s.particles@[k];
        assert(respects_mask(p, s.enabled_assets@));
        assert(s.enabled_assets@.len() == s.n());
        assert(p.position@[i] == 0 && p.velocity@[i] == 0);
    }
}

/// Tracking the best twice in a row, with no swarm update in between,
/// leaves both trackers where the first call put them.
pub proof fn lemma_track_best_idempotent(ps: Seq<Particle>, b0: Particle, bv0: Option<Particle>,
    c: PSOConstraints)
    requires
        ps.len() >= 1,
    ensures
        better_of(better_of(b0, fold_best(ps)), fold_best(ps)) == better_of(b0, fold_best(ps)),
        merged_best_valid(merged_best_valid(bv0, fold_best_valid(ps, c)), fold_best_valid(ps, c))
            == merged_best_valid(bv0, fold_best_valid(ps, c)),
{
    lemma_fit_lt_irreflexive(fold_best(ps).best_fitness);
    match fold_best_valid(ps, c) {
        Option::Some(cd) => {
            lemma_fit_lt_irreflexive(cd.best_fitness);
        },
        Option::None => {},
    }
}

} // verus!
