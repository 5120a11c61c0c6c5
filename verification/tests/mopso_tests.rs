use mopso::crowding::CrowdDist;
use mopso::mopso::{dominates, pareto_front, Evaluation, Swarm};
use mopso::pso::HyperParams;
use mopso::SCALE;

fn scaled(x: f64) -> i64 {
    (x * SCALE as f64) as i64
}

#[test]
fn test_mopso() {
    let evaluate = |p: Vec<i64>| Evaluation {
        fitness: vec![p[0] / 10, p[1] / 10],
        payload: vec![0, 0],
    };
    let mut swarm = Swarm::new(
        50,
        2,
        vec![(scaled(-100.0), scaled(100.0)), (scaled(-100.0), scaled(100.0))],
        2,
        vec![(scaled(-10.0), scaled(10.0)), (scaled(-10.0), scaled(10.0))],
        vec![true, true],
        2,
        &evaluate,
    )
    .unwrap();
    println!("{:?}", swarm.leaders_pos_by_rank.len());

    let hp = HyperParams::new(scaled(0.1), scaled(0.1), scaled(0.02));
    swarm.fly(100, &hp, &evaluate).unwrap();

    // Both objectives are maximized and grow with the position, so the
    // best corner (100, 100) dominates everything else: the leader set
    // should have moved toward it.
    let best = swarm
        .leaders
        .iter()
        .map(|l| l.fitness[0] + l.fitness[1])
        .max()
        .unwrap();
    assert!(best > scaled(10.0));
    for p in &swarm.particles {
        assert!(scaled(-100.0) <= p.position[0] && p.position[0] <= scaled(100.0));
        assert!(scaled(-100.0) <= p.position[1] && p.position[1] <= scaled(100.0));
    }
}

#[test]
fn test_pareto() {
    assert!(dominates(
        &vec![scaled(90.0), scaled(90.0)],
        &vec![scaled(80.0), scaled(80.0)],
        &vec![true, true]
    ));
}

#[test]
fn dominates_rejects_equal_vectors() {
    assert!(!dominates(&vec![0, 0], &vec![0, 0], &vec![true, true]));
}

#[test]
fn dominance_is_antisymmetric_on_samples() {
    let dirs = vec![true, false];
    let x = vec![scaled(3.0), scaled(-1.0)];
    let y = vec![scaled(2.0), scaled(0.5)];
    let fwd = dominates(&x, &y, &dirs);
    let back = dominates(&y, &x, &dirs);
    assert!(!(fwd && back));
    assert!(fwd);
}

#[test]
fn pareto_front_of_four_points() {
    // Minimizing both objectives: (3,3) is dominated by (2,2), the
    // rest are mutually non-dominated.
    let fits = vec![
        vec![scaled(1.0), scaled(5.0)],
        vec![scaled(5.0), scaled(1.0)],
        vec![scaled(3.0), scaled(3.0)],
        vec![scaled(2.0), scaled(2.0)],
    ];
    let dirs = vec![false, false];
    let front = pareto_front(&fits, &dirs);
    assert_eq!(front, vec![0, 1, 3]);
}

#[test]
fn pareto_front_is_idempotent() {
    let fits = vec![
        vec![scaled(1.0), scaled(5.0)],
        vec![scaled(5.0), scaled(1.0)],
        vec![scaled(3.0), scaled(3.0)],
        vec![scaled(2.0), scaled(2.0)],
    ];
    let dirs = vec![false, false];
    let a = pareto_front(&fits, &dirs);
    let b = pareto_front(&fits, &dirs);
    assert_eq!(a, b);
}

#[test]
fn pareto_front_soundness_and_completeness_on_samples() {
    let fits = vec![
        vec![scaled(1.0), scaled(5.0)],
        vec![scaled(5.0), scaled(1.0)],
        vec![scaled(3.0), scaled(3.0)],
        vec![scaled(2.0), scaled(2.0)],
    ];
    let dirs = vec![false, false];
    let front = pareto_front(&fits, &dirs);
    for i in 0..fits.len() {
        let dominated = (0..fits.len()).any(|j| dominates(&fits[j], &fits[i], &dirs));
        assert_eq!(front.contains(&i), !dominated);
    }
}

#[test]
fn crowding_two_leaders_are_infinite() {
    let fits = vec![vec![scaled(1.0)], vec![scaled(9.0)]];
    let bounds = vec![(scaled(0.0), scaled(10.0))];
    let dists = mopso::crowding::crowding_distances(&fits, &bounds);
    assert_eq!(dists, vec![CrowdDist::Infinite, CrowdDist::Infinite]);
}

#[test]
fn crowding_interior_leader_gets_normalized_gap() {
    let fits = vec![vec![scaled(0.0)], vec![scaled(4.0)], vec![scaled(10.0)]];
    let bounds = vec![(scaled(0.0), scaled(10.0))];
    let dists = mopso::crowding::crowding_distances(&fits, &bounds);
    assert_eq!(dists[0], CrowdDist::Infinite);
    assert_eq!(dists[2], CrowdDist::Infinite);
    // The middle leader's gap is (10 - 0) / (10 - 0) = 1.0 in fixed
    // point.
    assert_eq!(dists[1], CrowdDist::Finite(SCALE as u128));
}

#[test]
fn crowding_zero_width_bound_contributes_nothing() {
    let fits = vec![
        vec![scaled(1.0), scaled(7.0)],
        vec![scaled(2.0), scaled(7.0)],
        vec![scaled(3.0), scaled(7.0)],
    ];
    // The second objective's range is a single point: it must not
    // produce a division by zero, and contributes zero.
    let bounds = vec![(scaled(0.0), scaled(10.0)), (scaled(7.0), scaled(7.0))];
    let dists = mopso::crowding::crowding_distances(&fits, &bounds);
    // In the second dimension the middle leader is interior too (ties
    // are broken by index), so only the first dimension contributes.
    assert_eq!(dists[1], CrowdDist::Finite((SCALE as u128) / 5));
}

#[test]
fn evaluation_mismatch_is_reported() {
    let bad = |_p: Vec<i64>| Evaluation {
        fitness: vec![0],
        payload: vec![],
    };
    let r = Swarm::new(
        5,
        1,
        vec![(scaled(-1.0), scaled(1.0))],
        2,
        vec![(scaled(0.0), scaled(1.0)), (scaled(0.0), scaled(1.0))],
        vec![true, true],
        0,
        &bad,
    );
    assert!(matches!(r, Err(mopso::SwarmError::EvaluationMismatch)));
}

#[test]
fn minimize_both_landscape_trends_to_corner() {
    // Minimizing f(x, y) = (x, y) over the square [-10, 10]^2: the
    // corner (-10, -10) dominates every other point.
    let evaluate = |p: Vec<i64>| Evaluation {
        fitness: vec![p[0], p[1]],
        payload: vec![],
    };
    let mut swarm = Swarm::new(
        30,
        2,
        vec![(scaled(-10.0), scaled(10.0)), (scaled(-10.0), scaled(10.0))],
        2,
        vec![(scaled(-10.0), scaled(10.0)), (scaled(-10.0), scaled(10.0))],
        vec![false, false],
        0,
        &evaluate,
    )
    .unwrap();
    let hp = HyperParams::new(scaled(0.1), scaled(0.1), scaled(0.02));
    swarm.fly(50, &hp, &evaluate).unwrap();
    let best = swarm
        .leaders
        .iter()
        .map(|l| l.fitness[0] + l.fitness[1])
        .min()
        .unwrap();
    assert!(best <= scaled(-10.0));
    for p in &swarm.particles {
        assert!(scaled(-10.0) <= p.position[0] && p.position[0] <= scaled(10.0));
        assert!(scaled(-10.0) <= p.position[1] && p.position[1] <= scaled(10.0));
    }
    // No leader dominates another leader of the same generation.
    let dirs = vec![false, false];
    for k1 in 0..swarm.leaders.len() {
        for k2 in 0..swarm.leaders.len() {
            if k1 != k2 {
                assert!(!dominates(
                    &swarm.leaders[k1].fitness,
                    &swarm.leaders[k2].fitness,
                    &dirs
                ));
            }
        }
    }
    // The crowding ranks are exactly 1 ..= L, in order.
    assert_eq!(swarm.leaders_pos_by_rank.len(), swarm.leaders.len());
    for (k, entry) in swarm.leaders_pos_by_rank.iter().enumerate() {
        assert_eq!(entry.0, k + 1);
    }
}

#[test]
fn step_dim_exact_values() {
    // With full cognitive draw, half social draw and no inertia:
    // velocity = 1.0 * (pb - p) + 0.5 * (lp - p), position clamped.
    let hp = mopso::pso::HyperParams::new(scaled(1.0), scaled(1.0), 0);
    let s = mopso::SCALE;
    let (v, p) = mopso::pso::step_dim(
        0,
        0,
        scaled(2.0),
        scaled(4.0),
        &hp,
        s,
        s / 2,
        scaled(-10.0),
        scaled(10.0),
    );
    assert_eq!(v, scaled(4.0));
    assert_eq!(p, scaled(4.0));

    // A step past the upper bound is clamped to it; the velocity is
    // not.
    let (v2, p2) = mopso::pso::step_dim(
        0,
        scaled(9.0),
        scaled(20.0),
        scaled(20.0),
        &hp,
        s,
        s,
        scaled(-10.0),
        scaled(10.0),
    );
    assert_eq!(v2, scaled(22.0));
    assert_eq!(p2, scaled(10.0));
}

#[test]
fn pick_ranked_exact_slots() {
    // Ranks 1, 2, 3: entry 0 owns draw 0, entry 1 owns draws 1 and 2,
    // entry 2 owns draws 3, 4 and 5.
    assert_eq!(mopso::mopso::pick_ranked(3, 0), 0);
    assert_eq!(mopso::mopso::pick_ranked(3, 1), 1);
    assert_eq!(mopso::mopso::pick_ranked(3, 2), 1);
    assert_eq!(mopso::mopso::pick_ranked(3, 3), 2);
    assert_eq!(mopso::mopso::pick_ranked(3, 5), 2);
}

#[test]
fn weighted_selection_prefers_high_ranks() {
    // Three leaders with ranks 1, 2, 3 and rank total 6: the rank-3
    // leader should be drawn with probability 3/6 = 1/2.
    let ranked = vec![
        (1usize, vec![scaled(1.0)]),
        (2usize, vec![scaled(2.0)]),
        (3usize, vec![scaled(3.0)]),
    ];
    let mut third = 0u32;
    for _ in 0..1000 {
        let pos = Swarm::select_next_leader(&ranked, 6);
        if pos[0] == scaled(3.0) {
            third += 1;
        }
    }
    assert!(420 <= third && third <= 580, "rank-3 drawn {} times", third);
}
