use fishing_filter::fishing_context::{FishingContext, InitError};
use fishing_filter::geometry::Point;
use fishing_filter::markov_graph::MarkovGraph;
use fishing_filter::observation::Observation;
use fishing_filter::particle::ParticleContextType;
use fishing_filter::particle::ParticleContextType::{Fishing, GoFishing, GoToPort};
use fishing_filter::random_generator::RandomGenerator;
use fishing_filter::WEIGHT_SCALE;

fn obs(x: i64, y: i64, time: i64, heading: i64, speed: i64) -> Observation {
    Observation {
        pos: Point { x, y },
        time,
        heading,
        speed,
        context: ParticleContextType::GoFishing,
    }
}

fn simple_graph() -> MarkovGraph {
    let mut g = MarkovGraph::new();
    assert!(g.add_edge(
        ParticleContextType::GoFishing,
        ParticleContextType::Fishing,
        900_000_000
    ));
    assert!(g.add_edge(
        ParticleContextType::GoFishing,
        ParticleContextType::GoToPort,
        100_000_000
    ));
    assert!(g.add_edge(
        ParticleContextType::Fishing,
        ParticleContextType::GoToPort,
        500_000_000
    ));
    assert!(g.add_edge(
        ParticleContextType::Fishing,
        ParticleContextType::GoFishing,
        500_000_000
    ));
    assert!(g.add_edge(
        ParticleContextType::GoToPort,
        ParticleContextType::GoFishing,
        1_000_000_000
    ));
    g
}

fn make_context(observations: Vec<Observation>, n: u16) -> FishingContext {
    FishingContext::new(
        observations,
        n,
        5_000,
        (3_310, 890),
        (1_360, 890),
        51,
        simple_graph(),
    )
    .unwrap()
}

#[test]
fn empty_observations_fail_fast() {
    let r = FishingContext::new(
        Vec::new(),
        100,
        5_000,
        (3_310, 890),
        (1_360, 890),
        51,
        simple_graph(),
    );
    assert_eq!(r.unwrap_err(), InitError::EmptyObservations);
}

#[test]
fn population_size_is_n_at_every_step() {
    let observations = vec![
        obs(0, 0, 0, 90_000, 3_000),
        obs(3_000, 0, 1_000, 90_000, 3_000),
        obs(6_000, 0, 1_000, 90_000, 3_000),
        obs(9_000, 0, 1_000, 90_000, 3_000),
    ];
    let mut ctx = make_context(observations.clone(), 37);
    let mut rng = RandomGenerator::seeded(7);
    ctx.initialize();
    assert_eq!(ctx.particles.len(), 37);
    for i in 1..observations.len() {
        ctx.particle_filter_steps(observations[i], &mut rng);
        assert_eq!(ctx.particles.len(), 37);
    }
}

#[test]
fn weights_sum_to_scale_after_normalization() {
    let observations = vec![obs(0, 0, 0, 90_000, 3_000), obs(3_000, 0, 1_000, 90_000, 3_000)];
    let mut ctx = make_context(observations, 7);
    let mut rng = RandomGenerator::seeded(3);
    ctx.initialize();
    let sum: i64 = ctx.particles.iter().map(|p| p.weight).sum();
    assert_eq!(sum, WEIGHT_SCALE);
    let o = ctx.observations[1];
    ctx.particle_filter_steps(o, &mut rng);
    let sum: i64 = ctx.particles.iter().map(|p| p.weight).sum();
    assert_eq!(sum, WEIGHT_SCALE);
}

#[test]
fn normalization_of_arbitrary_weights_is_exact() {
    let observations = vec![obs(0, 0, 0, 90_000, 3_000)];
    let mut ctx = make_context(observations, 5);
    ctx.initialize();
    let raw = [13_i64, 7, 101, 3, 55];
    for (p, w) in ctx.particles.iter_mut().zip(raw.iter()) {
        p.weight = *w;
    }
    let degenerate = ctx.normalize_weights();
    assert!(!degenerate);
    let total: i64 = raw.iter().sum();
    let sum: i64 = ctx.particles.iter().map(|p| p.weight).sum();
    assert_eq!(sum, WEIGHT_SCALE);
    // All but the last particle hold the floor share exactly.
    for j in 0..4 {
        let expected = (raw[j] as i128 * WEIGHT_SCALE as i128 / total as i128) as i64;
        assert_eq!(ctx.particles[j].weight, expected);
    }
}

#[test]
fn zero_weights_reset_uniformly_and_count_degeneracy() {
    let observations = vec![obs(0, 0, 0, 90_000, 3_000)];
    let mut ctx = make_context(observations, 4);
    ctx.initialize();
    for p in ctx.particles.iter_mut() {
        p.weight = 0;
    }
    assert_eq!(ctx.degeneracy_events, 0);
    let degenerate = ctx.normalize_weights();
    assert!(degenerate);
    assert_eq!(ctx.degeneracy_events, 1);
    for p in ctx.particles.iter() {
        assert_eq!(p.weight, WEIGHT_SCALE / 4);
    }
}

#[test]
fn memory_grows_by_one_entry_per_step() {
    let observations = vec![
        obs(0, 0, 0, 90_000, 3_000),
        obs(3_000, 0, 1_000, 90_000, 3_000),
        obs(6_000, 0, 1_000, 90_000, 3_000),
    ];
    let mut ctx = make_context(observations.clone(), 12);
    let mut rng = RandomGenerator::seeded(11);
    ctx.initialize();
    for p in ctx.particles.iter() {
        assert_eq!(p.memory.len(), 1);
    }
    for i in 1..observations.len() {
        ctx.particle_filter_steps(observations[i], &mut rng);
        for p in ctx.particles.iter() {
            assert_eq!(p.memory.len(), i + 1);
        }
    }
}

#[test]
fn resampling_frequencies_match_weights() {
    // A categorical draw over weights 0.7 / 0.2 / 0.1, ten thousand times,
    // with a seeded source: the empirical frequencies must pass a
    // chi-square test (2 degrees of freedom, alpha = 0.001).
    let weights: Vec<i64> = vec![700_000_000, 200_000_000, 100_000_000];
    let total: i64 = weights.iter().sum();
    let mut rng = RandomGenerator::seeded(42);
    let mut counts = [0_u32; 3];
    let draws = 10_000;
    for _ in 0..draws {
        let u = rng.random_uniform_range(0, total);
        let k = fishing_filter::utils::select_by_weight(&weights, u);
        counts[k] += 1;
    }
    let expected = [7_000.0_f64, 2_000.0, 1_000.0];
    let mut chi2 = 0.0_f64;
    for k in 0..3 {
        let d = counts[k] as f64 - expected[k];
        chi2 += d * d / expected[k];
    }
    assert!(chi2 < 13.82, "chi-square too large: {chi2}, counts {counts:?}");
}

#[test]
fn resample_clones_only_positive_weight_particles() {
    let observations = vec![obs(0, 0, 0, 90_000, 3_000)];
    let mut ctx = make_context(observations, 3);
    ctx.initialize();
    ctx.particles[0].weight = 700_000_000;
    ctx.particles[0].context = ParticleContextType::GoFishing;
    ctx.particles[1].weight = 300_000_000;
    ctx.particles[1].context = ParticleContextType::Fishing;
    ctx.particles[2].weight = 0;
    ctx.particles[2].context = ParticleContextType::GoToPort;
    let mut rng = RandomGenerator::seeded(5);
    for _ in 0..20 {
        let fresh = ctx.resample(&mut rng);
        assert_eq!(fresh.len(), 3);
        for p in fresh.iter() {
            assert_ne!(p.context, ParticleContextType::GoToPort);
        }
        // The fresh population is equally weighted: the even split of the
        // scale, summing to exactly one.
        assert_eq!(fresh[0].weight, WEIGHT_SCALE / 3 + 1);
        assert_eq!(fresh[1].weight, WEIGHT_SCALE / 3);
        assert_eq!(fresh[2].weight, WEIGHT_SCALE / 3);
        let sum: i64 = fresh.iter().map(|p| p.weight).sum();
        assert_eq!(sum, WEIGHT_SCALE);
    }
}

#[test]
fn resample_zero_total_falls_back_to_first_particle() {
    let observations = vec![obs(0, 0, 0, 90_000, 3_000)];
    let mut ctx = make_context(observations, 3);
    ctx.initialize();
    for p in ctx.particles.iter_mut() {
        p.weight = 0;
    }
    ctx.particles[0].context = ParticleContextType::GoToPort;
    let mut rng = RandomGenerator::seeded(5);
    let fresh = ctx.resample(&mut rng);
    assert_eq!(fresh.len(), 3);
    for p in fresh.iter() {
        assert_eq!(p.context, ParticleContextType::GoToPort);
    }
}

#[test]
fn emission_is_strictly_monotone_in_distance() {
    let observations = vec![obs(0, 0, 0, 90_000, 3_000)];
    let mut ctx = make_context(observations, 1);
    ctx.initialize();
    let o = ctx.observations[0];
    let mut last = i64::MAX;
    // Distances 0, 2000, 4000, ... against sigma 5000: strictly smaller
    // distance, strictly higher likelihood.
    for step in 0..10 {
        let mut p = ctx.particles[0].clone();
        p.pos = Point { x: 2_000 * step, y: 0 };
        let e = ctx.calc_emission_prob(&o, &p);
        assert!(e < last, "emission not strictly decreasing at step {step}");
        last = e;
    }
    // Far beyond the cutoff the likelihood is zero.
    let mut p = ctx.particles[0].clone();
    p.pos = Point { x: 900_000_000, y: 0 };
    assert_eq!(ctx.calc_emission_prob(&o, &p), 0);
}

#[test]
fn majority_vote_reproduces_plurality() {
    let observations = vec![
        obs(0, 0, 0, 90_000, 3_000),
        obs(3_000, 0, 1_000, 90_000, 3_000),
        obs(6_000, 0, 1_000, 90_000, 3_000),
    ];
    let mut ctx = make_context(observations, 5);
    ctx.initialize();
    let histories = [
        vec![GoFishing, Fishing, GoToPort],
        vec![GoFishing, Fishing, GoToPort],
        vec![GoFishing, Fishing, Fishing],
        vec![Fishing, GoToPort, GoToPort],
        vec![Fishing, Fishing, GoToPort],
    ];
    for (p, h) in ctx.particles.iter_mut().zip(histories.iter()) {
        p.memory = h.clone();
    }
    let labeled = ctx.calc_optimal_sequence();
    assert_eq!(labeled.len(), 3);
    assert_eq!(labeled[0].context, GoFishing);
    assert_eq!(labeled[1].context, Fishing);
    assert_eq!(labeled[2].context, GoToPort);
    // The observations' own fields carry over unchanged.
    assert_eq!(labeled[1].pos, Point { x: 3_000, y: 0 });
    assert_eq!(labeled[1].time, 1_000);
}

#[test]
fn majority_vote_tie_resolves_to_default_mode() {
    let observations = vec![obs(0, 0, 0, 90_000, 3_000)];
    let mut ctx = make_context(observations, 3);
    ctx.initialize();
    let histories = [vec![GoFishing], vec![Fishing], vec![GoToPort]];
    for (p, h) in ctx.particles.iter_mut().zip(histories.iter()) {
        p.memory = h.clone();
    }
    let labeled = ctx.calc_optimal_sequence();
    assert_eq!(labeled[0].context, GoFishing);
}

#[test]
fn smoothing_overrides_center_only_on_supermajority() {
    let observations = vec![obs(0, 0, 0, 90_000, 3_000)];
    let ctx = {
        let mut c = make_context(observations, 100);
        c.context_smoothing_window_size = 5;
        c
    };
    // Window of five tally triples; the center (index 2) has 60 GoFishing
    // votes (threshold is 50), and GoFishing dominates the rest of the
    // window: the label flips to GoFishing.
    let window = vec![
        (90_u16, 10_u16, 0_u16),
        (80, 20, 0),
        (60, 40, 0),
        (70, 30, 0),
        (90, 10, 0),
    ];
    assert_eq!(ctx.smooth_context(Fishing, &window), GoFishing);
    // With the center tally below the threshold the label stands.
    let weak_center = vec![
        (90_u16, 10_u16, 0_u16),
        (80, 20, 0),
        (40, 60, 0),
        (70, 30, 0),
        (90, 10, 0),
    ];
    assert_eq!(ctx.smooth_context(Fishing, &weak_center), Fishing);
    // Without a strict majority over the window the label stands too.
    let no_majority = vec![
        (50_u16, 50_u16, 0_u16),
        (50, 50, 0),
        (60, 40, 0),
        (50, 50, 0),
        (50, 50, 0),
    ];
    assert_eq!(ctx.smooth_context(Fishing, &no_majority), Fishing);
}

#[test]
fn smoothed_sequence_denoises_an_outlier_step() {
    // Seven steps, three particles, window width three: step 3 leans
    // Fishing by two votes to one inside a GoFishing stretch. GoFishing
    // holds a strict majority over the window around it, and the center's
    // own GoFishing tally reaches the threshold (half of three): the
    // smoothing pass flips the outlier step.
    let observations: Vec<Observation> =
        (0..7).map(|i| obs(i * 1_000, 0, 1_000, 90_000, 3_000)).collect();
    let mut ctx = make_context(observations, 3);
    ctx.context_smoothing_window_size = 3;
    ctx.initialize();
    let outlier = vec![
        GoFishing, GoFishing, GoFishing, Fishing, GoFishing, GoFishing, GoFishing,
    ];
    let steady = vec![GoFishing; 7];
    ctx.particles[0].memory = outlier.clone();
    ctx.particles[1].memory = outlier;
    ctx.particles[2].memory = steady;
    let raw = ctx.calc_optimal_sequence();
    assert_eq!(raw[3].context, Fishing);
    let smoothed = ctx.smoothed_sequence();
    assert_eq!(smoothed.len(), 7);
    for (c, o) in smoothed.iter().enumerate() {
        assert_eq!(o.context, GoFishing, "step {c}");
    }
    // The raw vote is untouched where the window does not fit: with a
    // window of seven nothing fits a seven-step sequence's border, and
    // the outlier stands.
    ctx.context_smoothing_window_size = 9;
    let wide = ctx.smoothed_sequence();
    assert_eq!(wide[3].context, Fishing);
}

#[test]
fn end_to_end_deterministic_scenario() {
    // Four particles, three observations, and a single-value script: every
    // draw folds the same value, so the whole run is precomputable.
    // The uniform probability draw is 500000000 % 1000000000 = 0.5 of the
    // scale, which never falls below the 0.1 switch probability: no
    // particle ever leaves the start mode.
    let observations = vec![
        obs(0, 0, 0, 90_000, 3_000),
        obs(3_000, 0, 1_000, 90_000, 3_000),
        obs(6_000, 0, 1_000, 90_000, 3_000),
    ];
    let mut ctx = make_context(observations.clone(), 4);
    let mut rng = RandomGenerator::scripted(vec![500_000_000]);
    let labeled = ctx.particle_filter(&mut rng);

    // The final labels: the population never switches mode.
    assert_eq!(labeled.len(), 3);
    for l in labeled.iter() {
        assert_eq!(l.context, ParticleContextType::GoFishing);
    }

    // The population: size four, full histories, normalized weights.
    assert_eq!(ctx.particles.len(), 4);
    let sum: i64 = ctx.particles.iter().map(|p| p.weight).sum();
    assert_eq!(sum, WEIGHT_SCALE);
    for p in ctx.particles.iter() {
        assert_eq!(p.memory.len(), 3);
        assert_eq!(p.context, ParticleContextType::GoFishing);
        assert_eq!(
            p.memory,
            vec![
                ParticleContextType::GoFishing,
                ParticleContextType::GoFishing,
                ParticleContextType::GoFishing
            ]
        );
        // The speed draw is the script value saturated into the six-sigma
        // interval of the sailing distribution: 3310 + 6 * 890.
        assert_eq!(p.speed, 3_310 + 6 * 890);
        // All particles got identical draws, so the weights split evenly.
        assert_eq!(p.weight, WEIGHT_SCALE / 4);
    }
    // The heading after the first step: the seed particle sits exactly on
    // the reference point, so the window is the symmetric one around
    // 90 degrees, [67090, 112910), and the folded draw lands at
    // 67090 + 500000000 % 45820 = 67090 + 17980.
    // Identical draws keep all particles on identical kinematic state.
    let h0 = ctx.particles[0].heading;
    for p in ctx.particles.iter() {
        assert_eq!(p.heading, h0);
        assert_eq!(p.pos, ctx.particles[0].pos);
    }

    // The very same script replays to the very same run.
    let mut ctx2 = make_context(observations, 4);
    let mut rng2 = RandomGenerator::scripted(vec![500_000_000]);
    let labeled2 = ctx2.particle_filter(&mut rng2);
    assert_eq!(labeled.len(), labeled2.len());
    for (a, b) in labeled.iter().zip(labeled2.iter()) {
        assert_eq!(a.context, b.context);
    }
    for (a, b) in ctx.particles.iter().zip(ctx2.particles.iter()) {
        assert_eq!(a.pos, b.pos);
        assert_eq!(a.heading, b.heading);
        assert_eq!(a.speed, b.speed);
        assert_eq!(a.weight, b.weight);
        assert_eq!(a.memory, b.memory);
    }
}
