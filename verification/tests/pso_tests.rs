use mopso::pso::{Evaluation, HyperParams, Swarm};
use mopso::SCALE;

fn scaled(x: f64) -> i64 {
    (x * SCALE as f64) as i64
}

fn unscaled(x: i64) -> f64 {
    x as f64 / SCALE as f64
}

#[test]
fn test_pso() {
    let evaluate = |p: Vec<i64>| {
        let x = unscaled(p[0]);
        let y = unscaled(p[1]);
        let f = 4.0 * x.sin().powi(2) + 4.0 * y.sin().powi(2);
        Evaluation {
            fitness: scaled(f),
            payload: vec![0, 0],
        }
    };
    let mut swarm = Swarm::new(
        50,
        2,
        vec![(scaled(0.0), scaled(6.0)), (scaled(0.0), scaled(6.0))],
        (scaled(0.0), scaled(10.0)),
        2,
        &evaluate,
    )
    .unwrap();
    let hp = HyperParams::new(scaled(0.1), scaled(0.1), scaled(0.02));
    swarm.fly(100, &hp, &evaluate).unwrap();
    assert!(swarm.leader < swarm.particles.len());
    for p in &swarm.particles {
        assert!(scaled(0.0) <= p.position[0] && p.position[0] <= scaled(6.0));
        assert!(scaled(0.0) <= p.position[1] && p.position[1] <= scaled(6.0));
    }
}

#[test]
fn parabola_peak_is_found() {
    // Maximizing f(x) = -((x - 3)^2) over [-100, 100]: the best
    // position is x = 3.
    let evaluate = |p: Vec<i64>| {
        let x = unscaled(p[0]);
        let f = -((x - 3.0) * (x - 3.0));
        Evaluation {
            fitness: scaled(f),
            payload: vec![],
        }
    };
    let mut swarm = Swarm::new(
        30,
        1,
        vec![(scaled(-100.0), scaled(100.0))],
        (scaled(-11000.0), scaled(0.0)),
        0,
        &evaluate,
    )
    .unwrap();
    let hp = HyperParams::new(scaled(0.2), scaled(0.2), scaled(0.05));
    swarm.fly(200, &hp, &evaluate).unwrap();
    let best = &swarm.particles[swarm.leader];
    let x = unscaled(best.position[0]);
    assert!((x - 3.0).abs() < 2.0, "leader at {}", x);
}

#[test]
fn personal_best_never_regresses() {
    let evaluate = |p: Vec<i64>| {
        let x = unscaled(p[0]);
        Evaluation {
            fitness: scaled(-(x * x)),
            payload: vec![],
        }
    };
    let mut swarm = Swarm::new(
        10,
        1,
        vec![(scaled(-5.0), scaled(5.0))],
        (scaled(-100.0), scaled(0.0)),
        0,
        &evaluate,
    )
    .unwrap();
    let hp = HyperParams::new(scaled(0.1), scaled(0.1), scaled(0.02));
    let mut previous: Vec<i64> = swarm.particles.iter().map(|p| p.best_fitness).collect();
    for _ in 0..20 {
        swarm.fly(1, &hp, &evaluate).unwrap();
        let current: Vec<i64> = swarm.particles.iter().map(|p| p.best_fitness).collect();
        for i in 0..current.len() {
            assert!(current[i] >= previous[i]);
        }
        previous = current;
    }
}

#[test]
fn pso_evaluation_mismatch_is_reported() {
    let bad = |_p: Vec<i64>| Evaluation {
        fitness: 0,
        payload: vec![1, 2, 3],
    };
    let r = Swarm::new(
        5,
        1,
        vec![(scaled(-1.0), scaled(1.0))],
        (scaled(0.0), scaled(1.0)),
        0,
        &bad,
    );
    assert!(matches!(r, Err(mopso::SwarmError::EvaluationMismatch)));
}
