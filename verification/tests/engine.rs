use pso::fitness::{fitness_lt, Fitness};
use pso::model::WEIGHT_SCALE;
use pso::norm::renormalize;
use pso::particle::Particle;
use pso::pso::{
    compute_epoch_threshold, PSOConstraints, PSOError, PSOHyperparameters, ParticleSwarmOptimizer,
};

fn constraints4() -> PSOConstraints {
    PSOConstraints::new(4, 100_000, 1_000_000, 2)
}

fn hyper() -> PSOHyperparameters {
    PSOHyperparameters::new(0, 700_000, 1_500_000, 1_500_000)
}

fn engine4() -> ParticleSwarmOptimizer {
    ParticleSwarmOptimizer::new(
        20,
        hyper(),
        constraints4(),
        vec![1_000_000, 1_000_000, 1_000_000, 1_000_000],
        vec![1_000_000, 1_000_000, 1_000_000, 1_000_000],
    )
    .ok()
    .unwrap()
}

#[test]
fn apply_move_updates_best_only_on_strict_improvement() {
    let mut p = Particle {
        position: vec![500_000, 500_000],
        velocity: vec![0, 0],
        best_fitness: Fitness { num: 0, den: 1 },
        best_position: vec![500_000, 500_000],
    };
    p.apply_move(vec![400_000, 600_000], vec![0, 0], Fitness { num: 1, den: 1 });
    p.apply_move(vec![300_000, 700_000], vec![0, 0], Fitness { num: 1, den: 1 });
    // the tie above must not move the best position
    assert_eq!(p.best_position, vec![400_000, 600_000]);
    p.apply_move(vec![200_000, 800_000], vec![0, 0], Fitness { num: 2, den: 1 });
    p.apply_move(vec![100_000, 900_000], vec![0, 0], Fitness { num: 1, den: 2 });
    assert_eq!(p.best_fitness, Fitness { num: 2, den: 1 });
    assert_eq!(p.best_position, vec![200_000, 800_000]);
    assert_eq!(p.position, vec![100_000, 900_000]);
}

#[test]
fn zero_risk_denominator_yields_non_finite_non_winning_fitness() {
    let eng = ParticleSwarmOptimizer::new(
        5,
        hyper(),
        constraints4(),
        vec![1_000_000, 1_000_000, 1_000_000, 1_000_000],
        vec![0, 0, 0, 0],
    )
    .ok()
    .unwrap();
    let f = eng
        .fitness(&vec![250_000, 250_000, 250_000, 250_000])
        .ok()
        .unwrap();
    assert_eq!(f.den, 0);
    let finite = Fitness { num: 1, den: 1 };
    // a non-finite value never wins a comparison in either direction
    assert!(!fitness_lt(&finite, &f));
    assert!(!fitness_lt(&f, &finite));
}

#[test]
fn two_epoch_run_eliminates_two_assets_and_records_history() {
    let mut eng = engine4();
    let out = eng.run(5);
    assert_eq!(out.history.len(), 10);
    let removed = eng.enabled_assets.iter().filter(|&&e| !e).count();
    assert_eq!(removed, 2);
    assert_eq!(eng.enabled_assets.iter().filter(|&&e| e).count(), 2);
    assert_eq!(out.best_position.len(), 4);
    let total: u64 = out.best_position.iter().sum();
    assert_eq!(total, WEIGHT_SCALE);
}

#[test]
fn tracking_best_twice_changes_nothing() {
    let mut eng = engine4();
    eng.iterate();
    eng.retrieve_best_particle();
    let bf = eng.best_particle.best_fitness;
    let bp = eng.best_particle.position.clone();
    let bv = eng
        .best_valid_particle
        .as_ref()
        .map(|p| (p.best_fitness, p.position.clone()));
    eng.retrieve_best_particle();
    assert_eq!(eng.best_particle.best_fitness, bf);
    assert_eq!(eng.best_particle.position, bp);
    let bv2 = eng
        .best_valid_particle
        .as_ref()
        .map(|p| (p.best_fitness, p.position.clone()));
    assert_eq!(bv2, bv);
}

#[test]
fn best_fitness_never_decreases_across_tracking_rounds() {
    let mut eng = engine4();
    eng.retrieve_best_particle();
    let mut prev = eng.best_particle.best_fitness;
    for _ in 0..5 {
        eng.iterate();
        eng.retrieve_best_particle();
        let cur = eng.best_particle.best_fitness;
        assert!(!fitness_lt(&cur, &prev));
        prev = cur;
    }
}

#[test]
fn positions_stay_on_budget_and_removed_assets_stay_zero() {
    let mut eng = engine4();
    for p in &eng.particles {
        assert_eq!(p.position.len(), 4);
        assert_eq!(p.velocity.len(), 4);
        assert_eq!(p.position.iter().sum::<u64>(), WEIGHT_SCALE);
    }
    eng.iterate();
    eng.retrieve_best_particle();
    eng.remove_asset();
    let removed: Vec<usize> = eng
        .enabled_assets
        .iter()
        .enumerate()
        .filter(|(_, &e)| !e)
        .map(|(i, _)| i)
        .collect();
    assert_eq!(removed.len(), 1);
    let i = removed[0];
    for p in &eng.particles {
        assert_eq!(p.position[i], 0);
        assert_eq!(p.velocity[i], 0);
        assert_eq!(p.position.iter().sum::<u64>(), WEIGHT_SCALE);
    }
    eng.iterate();
    for p in &eng.particles {
        assert_eq!(p.position[i], 0);
        assert_eq!(p.velocity[i], 0);
        assert_eq!(p.position.iter().sum::<u64>(), WEIGHT_SCALE);
    }
}

#[test]
fn asset_to_remove_picks_first_weakest_enabled_index() {
    let mut eng = engine4();
    eng.best_particle = Particle {
        position: vec![300_000, 100_000, 100_000, 500_000],
        velocity: vec![0, 0, 0, 0],
        best_fitness: Fitness { num: 0, den: 1 },
        best_position: vec![250_000, 250_000, 250_000, 250_000],
    };
    assert_eq!(eng.asset_to_remove(), 1);
    eng.remove_asset();
    assert!(!eng.enabled_assets[1]);
    for p in &eng.particles {
        assert_eq!(p.position[1], 0);
        assert_eq!(p.velocity[1], 0);
    }
}

#[test]
fn construction_rejects_wrong_shapes() {
    let r = ParticleSwarmOptimizer::new(
        5,
        hyper(),
        constraints4(),
        vec![1_000_000, 1_000_000, 1_000_000],
        vec![1_000_000, 1_000_000, 1_000_000, 1_000_000],
    );
    assert_eq!(r.err().unwrap(), PSOError::ValuesShape);
    let r = ParticleSwarmOptimizer::new(
        5,
        hyper(),
        constraints4(),
        vec![1_000_000, 1_000_000, 1_000_000, 1_000_000],
        vec![1_000_000, 1_000_000, 1_000_000, 1_000_000, 1_000_000],
    );
    assert_eq!(r.err().unwrap(), PSOError::RiskShape);
}

#[test]
fn fitness_rejects_wrong_shape_and_computes_exact_ratio() {
    let eng = ParticleSwarmOptimizer::new(
        3,
        hyper(),
        PSOConstraints::new(2, 100_000, 1_000_000, 1),
        vec![2_000_000, 1_000_000],
        vec![1_000_000, 1_000_000],
    )
    .ok()
    .unwrap();
    assert!(matches!(
        eng.fitness(&vec![1, 2, 3]),
        Err(PSOError::ParticleShape)
    ));
    let f = eng.fitness(&vec![500_000, 500_000]).ok().unwrap();
    assert_eq!(
        f,
        Fitness { num: 1_500_000_000_000, den: 1_000_000_000_000 }
    );
}

#[test]
fn validity_checks_follow_bounds_and_distinct_count() {
    let mut eng = engine4();
    // strict: only two entries reach the lower bound, not more than the
    // minimum distinct count
    assert!(!eng.is_fully_valid_position(&vec![500_000, 500_000, 0, 0]));
    assert!(eng.is_fully_valid_position(&vec![400_000, 300_000, 300_000, 0]));
    // an entry above the epsilon but below the lower bound is not held
    assert!(!eng.is_fully_valid_position(&vec![400_000, 300_000, 250_000, 50_000]));
    // soft: gated by the current epoch threshold
    eng.current_min = 200_000;
    assert!(!eng.is_valid_position(&vec![500_000, 500_000, 0, 0]));
    assert!(eng.is_valid_position(&vec![250_000, 250_000, 250_000, 250_000]));
    eng.current_min = -5;
    assert!(eng.is_valid_position(&vec![500_000, 500_000, 0, 0]));
}

#[test]
fn epoch_threshold_follows_the_schedule_formula() {
    let c = constraints4();
    // cap = 4 - floor(1 / 0.1) = -6, so the threshold stays negative
    assert_eq!(compute_epoch_threshold(0, &c), -6_000);
    assert_eq!(compute_epoch_threshold(1, &c), -6_000);
    let c2 = PSOConstraints::new(4, 500_000, 1_000_000, 2);
    // cap = 4 - 2 = 2
    assert_eq!(compute_epoch_threshold(0, &c2), 0);
    assert_eq!(compute_epoch_threshold(1, &c2), 5_000);
    assert_eq!(compute_epoch_threshold(3, &c2), 10_000);
}

#[test]
fn renormalize_rescales_exactly_onto_the_budget() {
    assert_eq!(renormalize(&vec![0, 1, 1]), vec![0, 500_000, 500_000]);
    // the rounding deficit lands on the first largest entry
    assert_eq!(renormalize(&vec![1, 1, 1]), vec![333_334, 333_333, 333_333]);
    assert_eq!(renormalize(&vec![1, 3]), vec![250_000, 750_000]);
    assert_eq!(renormalize(&vec![7]), vec![1_000_000]);
}

#[test]
fn random_particles_start_on_budget_with_small_velocity() {
    let p = Particle::create_random_particle(&constraints4());
    assert_eq!(p.position.iter().sum::<u64>(), WEIGHT_SCALE);
    assert_eq!(p.position.len(), 4);
    assert_eq!(p.best_position, p.position);
    assert_eq!(p.best_fitness, Fitness { num: 0, den: 1 });
    for v in &p.velocity {
        assert!(-100_000 <= *v && *v < 100_000);
    }
}

#[test]
fn generated_moves_pass_the_soft_gate_and_stay_on_budget() {
    let eng = engine4();
    let p = Particle::create_random_particle(&constraints4());
    for _ in 0..3 {
        if let Some((vel, pos)) = eng.generate_valid_move(&p) {
            assert_eq!(pos.len(), 4);
            assert_eq!(vel.len(), 4);
            assert_eq!(pos.iter().sum::<u64>(), WEIGHT_SCALE);
            for w in &pos {
                assert!(*w <= eng.constraints.var_max);
            }
        }
    }
}
