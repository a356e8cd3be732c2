use fishing_filter::context::{ContextState, ContextType};
use fishing_filter::geometry::{cos_md, dir_from_heading, sin_md, wrap_heading, Point};
use fishing_filter::markov_graph::MarkovGraph;
use fishing_filter::particle::ParticleContextType;
use fishing_filter::random_generator::RandomGenerator;
use fishing_filter::utils::{clamp_i64, div_trunc, isqrt_u128, linspace, select_by_weight};
use fishing_filter::{DIR_SCALE, WEIGHT_SCALE};

#[test]
fn point_arithmetic() {
    let a = Point { x: 3, y: -4 };
    let b = Point { x: 10, y: 20 };
    assert_eq!(a.add(b), Point { x: 13, y: 16 });
    assert_eq!(b.sub(a), Point { x: 7, y: 24 });
    assert_eq!(a.mul(3), Point { x: 9, y: -12 });
    assert_eq!(b.div(3), Point { x: 3, y: 6 });
    assert_eq!(Point { x: -7, y: 0 }.div(2), Point { x: -3, y: 0 });
}

#[test]
fn point_norm_is_floor_of_euclidean_length() {
    assert_eq!(Point { x: 3, y: 4 }.norm(), 5);
    assert_eq!(Point { x: -3, y: 4 }.norm(), 5);
    assert_eq!(Point { x: 1, y: 1 }.norm(), 1);
    assert_eq!(Point { x: 0, y: 0 }.norm(), 0);
    assert_eq!(Point { x: 1_000_000, y: 0 }.norm(), 1_000_000);
}

#[test]
fn integer_square_root() {
    assert_eq!(isqrt_u128(0), 0);
    assert_eq!(isqrt_u128(1), 1);
    assert_eq!(isqrt_u128(2), 1);
    assert_eq!(isqrt_u128(4), 2);
    assert_eq!(isqrt_u128(99), 9);
    assert_eq!(isqrt_u128(100), 10);
    assert_eq!(isqrt_u128(u64::MAX as u128 * u64::MAX as u128), u64::MAX);
}

#[test]
fn clamp_and_truncating_division() {
    assert_eq!(clamp_i64(5, 0, 10), 5);
    assert_eq!(clamp_i64(-5, 0, 10), 0);
    assert_eq!(clamp_i64(15, 0, 10), 10);
    assert_eq!(div_trunc(7, 2), 3);
    assert_eq!(div_trunc(-7, 2), -3);
}

#[test]
fn direction_vector_of_cardinal_headings() {
    assert_eq!(sin_md(0), 0);
    assert_eq!(sin_md(90_000), DIR_SCALE);
    assert_eq!(sin_md(180_000), 0);
    assert_eq!(cos_md(90_000), 0);
    assert_eq!(cos_md(180_000), -DIR_SCALE);
    let east = dir_from_heading(0);
    assert_eq!(east, Point { x: DIR_SCALE, y: 0 });
    let north = dir_from_heading(90_000);
    assert_eq!(north, Point { x: 0, y: DIR_SCALE });
    // An oblique heading still yields a vector of (nearly) unit length.
    let d = dir_from_heading(37_000);
    let n = d.norm();
    assert!((n - DIR_SCALE).abs() <= 2, "norm was {n}");
}

#[test]
fn wrap_heading_into_full_turn() {
    assert_eq!(wrap_heading(-10_000), 350_000);
    assert_eq!(wrap_heading(0), 0);
    assert_eq!(wrap_heading(359_999), 359_999);
    assert_eq!(wrap_heading(360_000), 0);
    assert_eq!(wrap_heading(400_000), 40_000);
}

#[test]
fn mode_labels_round_trip() {
    for m in [
        ParticleContextType::GoFishing,
        ParticleContextType::Fishing,
        ParticleContextType::GoToPort,
    ] {
        assert_eq!(ParticleContextType::from_str(m.as_str()), Some(m));
    }
    assert_eq!(ParticleContextType::from_str("Sailing"), None);
    assert_eq!(ParticleContextType::from_str(""), None);
    assert_eq!(
        ParticleContextType::default(),
        ParticleContextType::GoFishing
    );
    assert_eq!(ParticleContextType::GoFishing.rank(), 0);
    assert_eq!(ParticleContextType::Fishing.rank(), 1);
    assert_eq!(ParticleContextType::GoToPort.rank(), 2);
}

#[test]
fn context_state_round_trip() {
    let s = ContextState {
        pos: Point { x: 1, y: 2 },
        direction: Point { x: DIR_SCALE, y: 0 },
        heading: 0,
        speed: 1_000,
        context: ContextType::SAILING,
    };
    let t = s;
    assert_eq!(s, t);
    assert_ne!(s.context, ContextType::FISHING);
}

#[test]
fn graph_categorical_draw_follows_cumulative_weights() {
    let mut g = MarkovGraph::new();
    assert!(g.add_edge(
        ParticleContextType::GoFishing,
        ParticleContextType::Fishing,
        7
    ));
    assert!(g.add_edge(
        ParticleContextType::GoFishing,
        ParticleContextType::GoToPort,
        3
    ));
    assert_eq!(g.total_weight(ParticleContextType::GoFishing), 10);
    assert_eq!(g.total_weight(ParticleContextType::Fishing), 0);
    for u in 0..7 {
        assert_eq!(
            g.get_dest(ParticleContextType::GoFishing, u),
            Some(ParticleContextType::Fishing)
        );
    }
    for u in 7..10 {
        assert_eq!(
            g.get_dest(ParticleContextType::GoFishing, u),
            Some(ParticleContextType::GoToPort)
        );
    }
    // The node set covers destinations too, each node exactly once, in
    // the fixed mode priority order.
    let nodes = g.get_all_nodes();
    assert_eq!(
        nodes,
        vec![
            ParticleContextType::GoFishing,
            ParticleContextType::Fishing,
            ParticleContextType::GoToPort
        ]
    );
}

#[test]
fn node_set_includes_destination_only_nodes() {
    let mut g = MarkovGraph::new();
    assert!(g.add_edge(
        ParticleContextType::Fishing,
        ParticleContextType::GoToPort,
        5
    ));
    let nodes = g.get_all_nodes();
    assert_eq!(
        nodes,
        vec![ParticleContextType::Fishing, ParticleContextType::GoToPort]
    );
}

#[test]
fn graph_rejects_bad_edge_weights() {
    let mut g = MarkovGraph::new();
    assert!(!g.add_edge(
        ParticleContextType::GoFishing,
        ParticleContextType::Fishing,
        0
    ));
    assert!(!g.add_edge(
        ParticleContextType::GoFishing,
        ParticleContextType::Fishing,
        -5
    ));
    assert!(!g.add_edge(
        ParticleContextType::GoFishing,
        ParticleContextType::Fishing,
        WEIGHT_SCALE + 1
    ));
    assert_eq!(g.get_all_nodes().len(), 0);
}

#[test]
fn select_by_weight_picks_first_matching_interval() {
    let ws: Vec<i64> = vec![5, 0, 5];
    assert_eq!(select_by_weight(&ws, 0), 0);
    assert_eq!(select_by_weight(&ws, 4), 0);
    // A zero-weight entry is never selected.
    assert_eq!(select_by_weight(&ws, 5), 2);
    assert_eq!(select_by_weight(&ws, 9), 2);
}

#[test]
fn scripted_source_replays_and_folds_values() {
    let mut rng = RandomGenerator::scripted(vec![3, -7, 23]);
    assert_eq!(rng.random_uniform_range(0, 10), 3);
    // Negative script values fold by the Euclidean remainder.
    assert_eq!(rng.random_uniform_range(0, 10), 3);
    assert_eq!(rng.random_uniform_range(0, 10), 3);
    // The script wraps around.
    assert_eq!(rng.random_uniform_range(0, 10), 3);
    // A normal draw hands the raw entry out, saturated into six sigma.
    let mut rng = RandomGenerator::scripted(vec![1_000_000]);
    assert_eq!(rng.random_normal(500, 10), 560);
    let mut rng = RandomGenerator::scripted(vec![505]);
    assert_eq!(rng.random_normal(500, 10), 505);
}

#[test]
fn seeded_source_is_reproducible_and_in_range() {
    let mut a = RandomGenerator::seeded(123);
    let mut b = RandomGenerator::seeded(123);
    for _ in 0..100 {
        let x = a.random_uniform_range(100, 102);
        let y = b.random_uniform_range(100, 102);
        assert_eq!(x, y);
        assert!(x == 100 || x == 101);
    }
    let mut hit_low = false;
    let mut hit_high = false;
    let mut c = RandomGenerator::seeded(9);
    for _ in 0..200 {
        match c.random_uniform_range(0, 2) {
            0 => hit_low = true,
            1 => hit_high = true,
            _ => panic!("draw out of range"),
        }
    }
    assert!(hit_low && hit_high);
    // Index draws stay within their half-open range.
    let mut e = RandomGenerator::seeded(4);
    for _ in 0..50 {
        let i = e.random_usize_uniform_range(3, 6);
        assert!((3..6).contains(&i));
    }
    // The normal draw stays within six standard deviations.
    let mut d = RandomGenerator::seeded(77);
    for _ in 0..100 {
        let v = d.random_normal(3_310, 890);
        assert!(3_310 - 6 * 890 <= v && v <= 3_310 + 6 * 890);
    }
}

#[test]
fn linspace_produces_even_grid() {
    assert_eq!(linspace(0, 10, 3), vec![0, 5, 10]);
    assert_eq!(linspace(0, 10, 2), vec![0, 10]);
    assert_eq!(linspace(-6, 6, 4), vec![-6, -2, 2, 6]);
    assert_eq!(linspace(5, 5, 3), vec![5, 5, 5]);
}
