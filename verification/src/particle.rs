//! A single candidate solution: a position, a velocity, and the remembered
//! personal best.

use vstd::prelude::*;
use vstd::arithmetic::div_mod::{lemma_div_is_ordered, lemma_div_multiples_vanish};
use crate::entropy::rand_below;
use crate::fitness::{fit_bounded, fit_finite, fit_lt, fitness_lt, lemma_fit_lt_asymmetric,
    Fitness};
use crate::model::{lemma_entry_le_sum, lemma_sum_push, normalized, sum_weights, ACCEL_LIMIT,
    N_LIMIT, RAW_LIMIT, VEL_LIMIT, WEIGHT_SCALE};
use crate::norm::renormalize;
use crate::pso::{hp_wf, PSOConstraints, PSOHyperparameters};

verus! {

/// Half-width of the uniform range initial velocities are drawn from
/// (one tenth of a weight unit).
pub const INIT_VEL_RANGE: u64 = 100_000;

pub struct Particle {
    pub position: Vec<u64>,
    pub velocity: Vec<i64>,
    pub best_fitness: Fitness,
    pub best_position: Vec<u64>,
}

/// Equality of two particles over the views of their fields.
pub open spec fn p_eq(a: Particle, b: Particle) -> bool {
    &&& a.position@ == b.position@
    &&& a.velocity@ == b.velocity@
    &&& a.best_fitness == b.best_fitness
    &&& a.best_position@ == b.best_position@
}

/// Well-formedness: all three vectors have length `n`, the current and best
/// positions each sum to exactly the budget, the velocity is saturated, and
/// the remembered best fitness is finite and comparable.
pub open spec fn particle_wf(p: Particle, n: int) -> bool {
    &&& p.position@.len() == n
    &&& p.velocity@.len() == n
    &&& p.best_position@.len() == n
    &&& sum_weights(p.position@) == WEIGHT_SCALE
    &&& sum_weights(p.best_position@) == WEIGHT_SCALE
    &&& forall|i: int| 0 <= i < n ==> -VEL_LIMIT <= #[trigger] p.velocity@[i] <= VEL_LIMIT
    &&& fit_finite(p.best_fitness)
    &&& fit_bounded(p.best_fitness)
}

/// What construction guarantees of a fresh particle: a zero personal best
/// held at the starting position, and a small starting velocity.
pub open spec fn fresh_particle(p: Particle) -> bool {
    &&& p.best_fitness == (Fitness { num: 0, den: 1 })
    &&& p.best_position@ == p.position@
    &&& forall|i: int|
        0 <= i < p.velocity@.len() ==> -(INIT_VEL_RANGE as i64) <= #[trigger] p.velocity@[i]
            < INIT_VEL_RANGE as i64
}

/// Entries of removed assets carry no weight and no velocity.
pub open spec fn respects_mask(p: Particle, enabled: Seq<bool>) -> bool {
    forall|i: int|
        0 <= i < enabled.len() && !enabled[i] ==> #[trigger] p.position@[i] == 0
            && p.velocity@[i] == 0
}

/// Truncating division (quotient rounded toward zero), for `d > 0`.
pub open spec fn tdiv(a: int, d: int) -> int {
    if a >= 0 {
        a / d
    } else {
        -((-a) / d)
    }
}

pub open spec fn clamp_vel(x: int) -> int {
    if x < -(VEL_LIMIT as int) {
        -(VEL_LIMIT as int)
    } else if x > VEL_LIMIT as int {
        VEL_LIMIT as int
    } else {
        x
    }
}

/// One candidate velocity component: dampened inertia, plus a social pull
/// toward the swarm's best-known position and a cognitive pull toward the
/// particle's own best, each weighted by a fresh uniform draw; the result is
/// saturated into the velocity range.
pub open spec fn blend_velocity(v: int, bk: int, bp: int, hp: PSOHyperparameters, u1: int,
    u2: int) -> int {
    clamp_vel(
        tdiv(hp.inertia_dampening * v, WEIGHT_SCALE as int) + tdiv(
            hp.social_acceleration * u1 * bk,
            (WEIGHT_SCALE as int) * (WEIGHT_SCALE as int),
        ) + tdiv(
            hp.cognitive_acceleration * u2 * bp,
            (WEIGHT_SCALE as int) * (WEIGHT_SCALE as int),
        ),
    )
}

/// The whole candidate velocity; removed assets stay at zero.
pub open spec fn move_velocity(p: Particle, bk: Seq<u64>, hp: PSOHyperparameters,
    enabled: Seq<bool>, u1: Seq<u64>, u2: Seq<u64>) -> Seq<i64> {
    Seq::new(
        p.velocity@.len(),
        |i: int|
            if !enabled[i] {
                0i64
            } else {
                blend_velocity(
                    p.velocity@[i] as int,
                    bk[i] as int,
                    p.best_position@[i] as int,
                    hp,
                    u1[i] as int,
                    u2[i] as int,
                ) as i64
            },
    )
}

/// The unnormalised candidate position: the current position stepped by the
/// candidate velocity, floored at zero, with removed assets forced to zero.
pub open spec fn move_raw(p: Particle, vel: Seq<i64>, enabled: Seq<bool>) -> Seq<u64> {
    Seq::new(
        p.position@.len(),
        |i: int|
            if !enabled[i] {
                0u64
            } else if p.position@[i] + vel[i] < 0 {
                0u64
            } else {
                (p.position@[i] + vel[i]) as u64
            },
    )
}

/// Copies a weight vector.
pub(crate) fn copy_weights(src: &Vec<u64>) -> (r: Vec<u64>)
    ensures
        r@ == src@,
{
    let mut r: Vec<u64> = Vec::new();
    let mut i: usize = 0;
    while i < src.len()
        invariant
            0 <= i <= src@.len(),
            r@ =~= src@.subrange(0, i as int),
        decreases src@.len() - i,
    {
        r.push(src[i]);
        i = i + 1;
    }
    proof {
        assert(src@.subrange(0, src@.len() as int) =~= src@);
    }
    r
}

/// Copies a velocity vector.
pub(crate) fn copy_velocity(src: &Vec<i64>) -> (r: Vec<i64>)
    ensures
        r@ == src@,
{
    let mut r: Vec<i64> = Vec::new();
    let mut i: usize = 0;
    while i < src.len()
        invariant
            0 <= i <= src@.len(),
            r@ =~= src@.subrange(0, i as int),
        decreases src@.len() - i,
    {
        r.push(src[i]);
        i = i + 1;
    }
    proof {
        assert(src@.subrange(0, src@.len() as int) =~= src@);
    }
    r
}

/// Copies a particle field by field.
pub(crate) fn clone_particle(p: &Particle) -> (r: Particle)
    ensures
        p_eq(r, *p),
{
    Particle {
        position: copy_weights(&p.position),
        velocity: copy_velocity(&p.velocity),
        best_fitness: p.best_fitness,
        best_position: copy_weights(&p.best_position),
    }
}

/// A freshly drawn vector of uniform fixed-point fractions of one.
pub(crate) fn uniform_unit_vector(n: usize) -> (u: Vec<u64>)
    ensures
        u@.len() == n,
        forall|i: int| 0 <= i < n ==> #[trigger] u@[i] <= WEIGHT_SCALE,
{
    let mut u: Vec<u64> = Vec::new();
    let mut i: usize = 0;
    while i < n
        invariant
            0 <= i <= n,
            u@.len() == i,
            forall|k: int| 0 <= k < i ==> #[trigger] u@[k] <= WEIGHT_SCALE,
        decreases n - i,
    {
        u.push(rand_below(WEIGHT_SCALE));
        i = i + 1;
    }
    u
}

/// The dampened inertia contribution `damp * v / WEIGHT_SCALE`, rounded
/// toward zero.
fn inertia_term(damp: i64, v: i64) -> (t: i64)
    requires
        -ACCEL_LIMIT <= damp <= ACCEL_LIMIT,
        -VEL_LIMIT <= v <= VEL_LIMIT,
    ensures
        t as int == tdiv(damp * v, WEIGHT_SCALE as int),
        -100_000_000_000 <= t <= 100_000_000_000,
{
    let da: u64 = if damp < 0 {
        (-damp) as u64
    } else {
        damp as u64
    };
    let va: u64 = if v < 0 {
        (-v) as u64
    } else {
        v as u64
    };
    proof {
        assert((da as int) * (va as int) <= (ACCEL_LIMIT as int) * (VEL_LIMIT as int))
            by (nonlinear_arith)
            requires
                0 <= da as int <= ACCEL_LIMIT as int,
                0 <= va as int <= VEL_LIMIT as int,
        ;
    }
    let mag: u128 = (da as u128) * (va as u128) / (WEIGHT_SCALE as u128);
    proof {
        lemma_div_is_ordered(
            (da as int) * (va as int),
            (ACCEL_LIMIT as int) * (VEL_LIMIT as int),
            WEIGHT_SCALE as int,
        );
        lemma_div_multiples_vanish(100_000_000_000, WEIGHT_SCALE as int);
        assert((WEIGHT_SCALE as int) * 100_000_000_000 == (ACCEL_LIMIT as int) * (
        VEL_LIMIT as int));
        vstd::arithmetic::div_mod::lemma_div_pos_is_pos((da as int) * (va as int),
            WEIGHT_SCALE as int);
        if damp < 0 {
            if v < 0 {
                assert((damp as int) * (v as int) == (da as int) * (va as int))
                    by (nonlinear_arith)
                    requires
                        da as int == -(damp as int),
                        va as int == -(v as int),
                ;
            } else {
                assert(-((damp as int) * (v as int)) == (da as int) * (va as int))
                    by (nonlinear_arith)
                    requires
                        da as int == -(damp as int),
                        va as int == v as int,
                ;
            }
        } else {
            if v < 0 {
                assert(-((damp as int) * (v as int)) == (da as int) * (va as int))
                    by (nonlinear_arith)
                    requires
                        da as int == damp as int,
                        va as int == -(v as int),
                ;
            } else {
                assert((damp as int) * (v as int) == (da as int) * (va as int))
                    by (nonlinear_arith)
                    requires
                        da as int == damp as int,
                        va as int == v as int,
                ;
            }
        }
    }
    let q = mag as i64;
    if (damp < 0) != (v < 0) {
        -q
    } else {
        q
    }
}

/// The pull contribution `c * u * w / WEIGHT_SCALE^2`, rounded toward zero.
fn scaled_term(c: i64, u: u64, w: u64) -> (t: i64)
    requires
        -ACCEL_LIMIT <= c <= ACCEL_LIMIT,
        u <= WEIGHT_SCALE,
        w <= WEIGHT_SCALE,
    ensures
        t as int == tdiv(
            c * (u as int) * (w as int),
            (WEIGHT_SCALE as int) * (WEIGHT_SCALE as int),
        ),
        -ACCEL_LIMIT <= t <= ACCEL_LIMIT,
{
    let ca: u64 = if c < 0 {
        (-c) as u64
    } else {
        c as u64
    };
    proof {
        let sq = (WEIGHT_SCALE as int) * (WEIGHT_SCALE as int);
        assert(0 <= (u as int) * (w as int) <= sq) by (nonlinear_arith)
            requires
                0 <= u as int <= WEIGHT_SCALE as int,
                0 <= w as int <= WEIGHT_SCALE as int,
                sq == (WEIGHT_SCALE as int) * (WEIGHT_SCALE as int),
        ;
        assert((ca as int) * ((u as int) * (w as int)) <= (ACCEL_LIMIT as int) * sq)
            by (nonlinear_arith)
            requires
                0 <= ca as int <= ACCEL_LIMIT as int,
                0 <= (u as int) * (w as int) <= sq,
                0 <= sq,
        ;
    }
    let uw: u128 = (u as u128) * (w as u128);
    let denom: u128 = (WEIGHT_SCALE as u128) * (WEIGHT_SCALE as u128);
    let mag: u128 = (ca as u128) * uw / denom;
    proof {
        let sq = (WEIGHT_SCALE as int) * (WEIGHT_SCALE as int);
        lemma_div_is_ordered((ca as int) * ((u as int) * (w as int)), (ACCEL_LIMIT as int) * sq,
            sq);
        lemma_div_multiples_vanish(ACCEL_LIMIT as int, sq);
        assert(sq * (ACCEL_LIMIT as int) == (ACCEL_LIMIT as int) * sq) by (nonlinear_arith);
        vstd::arithmetic::div_mod::lemma_div_pos_is_pos(
            (ca as int) * ((u as int) * (w as int)),
            sq,
        );
        if c < 0 {
            assert(c * (u as int) * (w as int) == -((ca as int) * ((u as int) * (w as int))))
                by (nonlinear_arith)
                requires
                    ca as int == -(c as int),
            ;
        } else {
            assert(c * (u as int) * (w as int) == (ca as int) * ((u as int) * (w as int)))
                by (nonlinear_arith)
                requires
                    ca as int == c as int,
            ;
        }
    }
    let q = mag as i64;
    if c < 0 {
        -q
    } else {
        q
    }
}

impl Particle {
    /// A fresh particle: position drawn uniformly within the per-weight
    /// bounds and renormalised onto the budget, a small uniform velocity,
    /// and a zero personal best.
    pub fn create_random_particle(constraints: &PSOConstraints) -> (p: Particle)
        requires
            constraints.wf(),
        ensures
            particle_wf(p, constraints.n_var as int),
            fresh_particle(p),
    {
        let n = constraints.n_var;
        let mut raw: Vec<u64> = Vec::new();
        let mut i: usize = 0;
        while i < n
            invariant
                0 <= i <= n,
                raw@.len() == i,
                constraints.wf(),
                n == constraints.n_var,
                forall|k: int|
                    0 <= k < i ==> constraints.var_min <= #[trigger] raw@[k]
                        < constraints.var_max,
            decreases n - i,
        {
            raw.push(constraints.var_min + rand_below(constraints.var_max - constraints.var_min));
            i = i + 1;
        }
        proof {
            lemma_entry_le_sum(raw@, 0);
        }
        let position = renormalize(&raw);
        let mut velocity: Vec<i64> = Vec::new();
        let mut i: usize = 0;
        while i < n
            invariant
                0 <= i <= n,
                velocity@.len() == i,
                forall|k: int|
                    0 <= k < i ==> -(INIT_VEL_RANGE as i64) <= #[trigger] velocity@[k]
                        < INIT_VEL_RANGE as i64,
            decreases n - i,
        {
            let draw = rand_below(2 * INIT_VEL_RANGE);
            velocity.push(draw as i64 - INIT_VEL_RANGE as i64);
            i = i + 1;
        }
        let best_position = copy_weights(&position);
        Particle { position, velocity, best_fitness: Fitness { num: 0, den: 1 }, best_position }
    }

    /// Builds one candidate `(velocity, position)` pair from the supplied
    /// uniform draws.  Yields nothing when the whole candidate collapses to
    /// zero weight, which no renormalisation can put back on the budget.
    pub fn random_move(&self, best_known: &Vec<u64>, hp: &PSOHyperparameters,
        enabled: &Vec<bool>, u1: &Vec<u64>, u2: &Vec<u64>) -> (r: Option<(Vec<i64>, Vec<u64>)>)
        requires
            particle_wf(*self, self.position@.len() as int),
            1 <= self.position@.len() <= N_LIMIT,
            best_known@.len() == self.position@.len(),
            enabled@.len() == self.position@.len(),
            u1@.len() == self.position@.len(),
            u2@.len() == self.position@.len(),
            forall|i: int| 0 <= i < best_known@.len() ==> #[trigger] best_known@[i] <= WEIGHT_SCALE,
            forall|i: int| 0 <= i < u1@.len() ==> #[trigger] u1@[i] <= WEIGHT_SCALE,
            forall|i: int| 0 <= i < u2@.len() ==> #[trigger] u2@[i] <= WEIGHT_SCALE,
            hp_wf(*hp),
        ensures
            (r is Some) <==> sum_weights(
                move_raw(
                    *self,
                    move_velocity(*self, best_known@, *hp, enabled@, u1@, u2@),
                    enabled@,
                ),
            ) > 0,
            r matches Some((vel, pos)) ==> {
                &&& vel@ == move_velocity(*self, best_known@, *hp, enabled@, u1@, u2@)
                &&& pos@ == normalized(move_raw(*self, vel@, enabled@))
                &&& pos@.len() == self.position@.len()
                &&& vel@.len() == self.position@.len()
                &&& sum_weights(pos@) == WEIGHT_SCALE
                &&& forall|i: int| 0 <= i < pos@.len() ==> #[trigger] pos@[i] <= WEIGHT_SCALE
                &&& forall|i: int|
                    0 <= i < vel@.len() ==> -VEL_LIMIT <= #[trigger] vel@[i] <= VEL_LIMIT
                &&& forall|i: int|
                    0 <= i < enabled@.len() && !enabled@[i] ==> #[trigger] pos@[i] == 0
                        && vel@[i] == 0
            },
    {
        let n = self.position.len();
        let ghost spec_vel = move_velocity(*self, best_known@, *hp, enabled@, u1@, u2@);
        proof {
            assert forall|k: int| 0 <= k < n implies #[trigger] self.position@[k]
                <= WEIGHT_SCALE by {
                lemma_entry_le_sum(self.position@, k);
            }
            assert forall|k: int| 0 <= k < n implies #[trigger] self.best_position@[k]
                <= WEIGHT_SCALE by {
                lemma_entry_le_sum(self.best_position@, k);
            }
        }

        let mut vel: Vec<i64> = Vec::new();
        let mut i: usize = 0;
        while i < n
            invariant
                0 <= i <= n,
                n == self.position@.len(),
                particle_wf(*self, n as int),
                best_known@.len() == n,
                enabled@.len() == n,
                u1@.len() == n,
                u2@.len() == n,
                forall|k: int| 0 <= k < n ==> #[trigger] best_known@[k] <= WEIGHT_SCALE,
                forall|k: int| 0 <= k < n ==> #[trigger] u1@[k] <= WEIGHT_SCALE,
                forall|k: int| 0 <= k < n ==> #[trigger] u2@[k] <= WEIGHT_SCALE,
                forall|k: int| 0 <= k < n ==> #[trigger] self.best_position@[k] <= WEIGHT_SCALE,
                hp_wf(*hp),
                spec_vel == move_velocity(*self, best_known@, *hp, enabled@, u1@, u2@),
                vel@.len() == i,
                forall|k: int| 0 <= k < i ==> #[trigger] vel@[k] == spec_vel[k],
                forall|k: int| 0 <= k < i ==> -VEL_LIMIT <= #[trigger] vel@[k] <= VEL_LIMIT,
            decreases n - i,
        {
            if !enabled[i] {
                vel.push(0);
            } else {
                let t1 = inertia_term(hp.inertia_dampening, self.velocity[i]);
                let t2 = scaled_term(hp.social_acceleration, u1[i], best_known[i]);
                let t3 = scaled_term(hp.cognitive_acceleration, u2[i], self.best_position[i]);
                let t = t1 + t2 + t3;
                let c = if t < -VEL_LIMIT {
                    -VEL_LIMIT
                } else if t > VEL_LIMIT {
                    VEL_LIMIT
                } else {
                    t
                };
                vel.push(c);
            }
            i = i + 1;
        }
        proof {
            assert(vel@ =~= spec_vel);
        }

        let ghost spec_raw = move_raw(*self, vel@, enabled@);
        let mut raw: Vec<u64> = Vec::new();
        let mut i: usize = 0;
        while i < n
            invariant
                0 <= i <= n,
                n == self.position@.len(),
                particle_wf(*self, n as int),
                enabled@.len() == n,
                vel@.len() == n,
                forall|k: int| 0 <= k < n ==> #[trigger] self.position@[k] <= WEIGHT_SCALE,
                forall|k: int| 0 <= k < n ==> -VEL_LIMIT <= #[trigger] vel@[k] <= VEL_LIMIT,
                spec_raw == move_raw(*self, vel@, enabled@),
                raw@.len() == i,
                forall|k: int| 0 <= k < i ==> #[trigger] raw@[k] == spec_raw[k],
                forall|k: int| 0 <= k < i ==> #[trigger] raw@[k] <= RAW_LIMIT,
            decreases n - i,
        {
            if !enabled[i] {
                raw.push(0);
            } else {
                let step: i64 = self.position[i] as i64 + vel[i];
                if step < 0 {
                    raw.push(0);
                } else {
                    raw.push(step as u64);
                }
            }
            i = i + 1;
        }
        proof {
            assert(raw@ =~= spec_raw);
        }

        let mut s: u64 = 0;
        let mut i: usize = 0;
        while i < n
            invariant
                0 <= i <= n,
                n == raw@.len() <= N_LIMIT,
                forall|k: int| 0 <= k < n ==> #[trigger] raw@[k] <= RAW_LIMIT,
                s == sum_weights(raw@.subrange(0, i as int)),
                s <= (i as int) * (RAW_LIMIT as int),
            decreases n - i,
        {
            proof {
                lemma_sum_push(raw@, i as int);
                assert((i as int) * (RAW_LIMIT as int) + (RAW_LIMIT as int) == ((i as int) + 1)
                    * (RAW_LIMIT as int)) by (nonlinear_arith);
                vstd::arithmetic::mul::lemma_mul_inequality((i as int) + 1, N_LIMIT as int,
                    RAW_LIMIT as int);
            }
            s = s + raw[i];
            i = i + 1;
        }
        proof {
            assert(raw@.subrange(0, n as int) =~= raw@);
        }

        if s == 0 {
            None
        } else {
            let pos = renormalize(&raw);
            Some((vel, pos))
        }
    }

    /// Commits a candidate move.  The current position and velocity are
    /// always overwritten; the personal best moves only on a strict fitness
    /// improvement, so the remembered best fitness never decreases.
    pub fn apply_move(&mut self, position: Vec<u64>, velocity: Vec<i64>, fitness: Fitness)
        requires
            fit_bounded(old(self).best_fitness),
            fit_bounded(fitness),
        ensures
            final(self).position@ == position@,
            final(self).velocity@ == velocity@,
            fit_lt(old(self).best_fitness, fitness) ==> final(self).best_fitness == fitness
                && final(self).best_position@ == position@,
            !fit_lt(old(self).best_fitness, fitness) ==> final(self).best_fitness == old(
                self,
            ).best_fitness && final(self).best_position@ == old(self).best_position@,
            !fit_lt(final(self).best_fitness, old(self).best_fitness),
    {
        proof {
            lemma_fit_lt_asymmetric(old(self).best_fitness, fitness);
        }
        self.position = position;
        self.velocity = velocity;
        if fitness_lt(&self.best_fitness, &fitness) {
            self.best_position = copy_weights(&self.position);
            self.best_fitness = fitness;
        }
    }
}

} // verus!
