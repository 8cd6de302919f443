use rand::rngs::StdRng;
use rand::SeedableRng;
use tournament_core::{GameMap, MapNodeType, MAX_DEGREE, MIN_DEGREE};

fn validate_map(map: &GameMap, seed: i64) {
    let node_weights: Vec<MapNodeType> = map.node_weights();
    let node_count = node_weights.len();
    assert!(
        (12..=16).contains(&node_count),
        "map should have between 12 and 16 nodes (has {}) [seed: {}]",
        node_count,
        seed
    );

    let teleport_count = node_weights
        .iter()
        .filter(|&&n| matches!(n, MapNodeType::Teleport))
        .count();
    assert!(
        teleport_count == 1,
        "map should have exactly 1 teleport node (has {}) [seed: {}]",
        teleport_count,
        seed
    );

    let healing_count = node_weights
        .iter()
        .filter(|&&n| matches!(n, MapNodeType::Healing))
        .count();
    assert!(
        (1..=2).contains(&healing_count),
        "map should have 1 or 2 healing nodes (has {}) [seed: {}]",
        healing_count,
        seed
    );

    let gamble_count = node_weights
        .iter()
        .filter(|&&n| matches!(n, MapNodeType::Gamble))
        .count();
    assert!(
        (1..=2).contains(&gamble_count),
        "map should have 1 or 2 gamble nodes (has {}) [seed: {}]",
        gamble_count,
        seed
    );

    for node in map.node_indices() {
        let loops = map.get_loops(node);
        assert!(
            loops < 3,
            "node {} has invalid number of loops: {} [seed: {}]",
            node,
            loops,
            seed
        );

        let node_degree = map.get_node_degree(node);
        assert!(
            (MIN_DEGREE..=MAX_DEGREE).contains(&node_degree),
            "node {} has invalid degree: {} [seed: {}]",
            node,
            node_degree,
            seed
        );
    }
}

fn generate(seed: i64) -> GameMap {
    let mut rng = StdRng::seed_from_u64(seed as u64);
    GameMap::new(&mut rng).expect("Failed to generate map")
}

#[test]
fn test_map_generation() {
    for seed in 0..200i64 {
        let map = generate(seed);
        validate_map(&map, seed);
    }
    for seed in [-1i64, -7, i64::MIN, i64::MAX, 123456789, -987654321] {
        let map = generate(seed);
        validate_map(&map, seed);
    }
}

#[test]
fn test_specific_seeds() {
    let problem_seeds = [-478597674355546704i64];
    for &seed in &problem_seeds {
        let map = generate(seed);
        validate_map(&map, seed);
    }
}

#[test]
fn test_map_generation_deterministic() {
    for seed in [0i64, 1, 42, -478597674355546704] {
        let a = generate(seed);
        let b = generate(seed);
        assert_eq!(a.node_weights(), b.node_weights(), "node types differ for seed {}", seed);
        assert_eq!(a.node_weights().len(), b.node_weights().len());
        for node in a.node_indices() {
            let mut ea = a.get_outgoing_edges(node);
            let mut eb = b.get_outgoing_edges(node);
            ea.sort();
            eb.sort();
            assert_eq!(ea, eb, "edges of node {} differ for seed {}", node, seed);
        }
    }
}

#[test]
fn test_node_degree() {
    // A plain chain: 0 -> 1 -> 2, with a back edge 1 -> 0.
    let types = vec![MapNodeType::Normal; 3];
    let edges = vec![(0usize, 1usize), (1, 2), (1, 0)];
    let map = GameMap::from_graph(types, edges).expect("valid graph");
    assert_eq!(map.get_node_degree(0), 1);
    assert_eq!(map.get_node_degree(1), 2);
    assert_eq!(map.get_node_degree(2), 1);
    assert_eq!(map.get_loops(0), 0);
    assert!(map.is_node_balanced(0));
    assert!(!map.is_node_balanced(1));
    assert!(!map.is_node_balanced(2));

    // Self-loops count towards both directions and are discounted in pairs.
    let types = vec![MapNodeType::Normal; 2];
    let edges = vec![(0usize, 0usize), (0, 0), (0, 1)];
    let map = GameMap::from_graph(types, edges).expect("valid graph");
    assert_eq!(map.get_loops(0), 2);
    // out = 3, in = 2, loops = 2: max(3, 2) - 2 / 2 = 2.
    assert_eq!(map.get_node_degree(0), 2);
    assert_eq!(map.get_outgoing_edges(0).len(), 3);
    assert_eq!(map.get_incoming_edges(0).len(), 2);
    assert_eq!(map.get_incoming_edges(1).len(), 1);
}

#[test]
fn test_from_graph_rejects_bad_edges() {
    let types = vec![MapNodeType::Normal; 2];
    assert!(GameMap::from_graph(types.clone(), vec![(0, 5)]).is_none());
    assert!(GameMap::from_graph(types, vec![(0, 1)]).is_some());
}

#[test]
fn test_available_moves_respect_blocked() {
    let types = vec![MapNodeType::Normal; 3];
    let edges = vec![(0usize, 1usize), (0, 2), (1, 0), (2, 0)];
    let map = GameMap::from_graph(types, edges).expect("valid graph");
    let blocked = vec![2usize];
    let moves = map.get_available_moves(0, &blocked);
    assert_eq!(moves, vec![1usize]);
    let moves = map.get_available_moves(0, &Vec::new());
    assert_eq!(moves, vec![1usize, 2usize]);
}

#[test]
fn test_shuffle_available_moves_permutes() {
    let types = vec![MapNodeType::Normal; 5];
    let edges = vec![(0usize, 1usize), (0, 2), (0, 3), (0, 4), (1, 0), (2, 0), (3, 0), (4, 0)];
    let map = GameMap::from_graph(types, edges).expect("valid graph");
    let mut rng = StdRng::seed_from_u64(11);
    let mut seen = std::collections::HashSet::new();
    for _ in 0..64 {
        let moves = map.shuffle_available_moves(0, &Vec::new(), &mut rng);
        let mut sorted = moves.clone();
        sorted.sort();
        assert_eq!(sorted, vec![1usize, 2, 3, 4]);
        seen.insert(moves);
    }
    assert!(seen.len() > 1, "shuffling never changed the order");
}

#[test]
fn test_random_empty_node_avoids_teleport_and_blocked() {
    let types = vec![
        MapNodeType::Teleport,
        MapNodeType::Normal,
        MapNodeType::Healing,
        MapNodeType::Gamble,
    ];
    let edges = vec![(0usize, 1usize), (1, 2), (2, 3), (3, 0)];
    let map = GameMap::from_graph(types, edges).expect("valid graph");
    let mut rng = StdRng::seed_from_u64(5);
    for _ in 0..50 {
        let blocked = vec![1usize];
        let pick = map.get_random_empty_node(&blocked, &mut rng).expect("must find a node");
        assert!(pick == 2 || pick == 3);
    }
    // Everything except the Teleport node blocked: nothing remains.
    let blocked = vec![1usize, 2, 3];
    assert!(map.get_random_empty_node(&blocked, &mut rng).is_none());
}
