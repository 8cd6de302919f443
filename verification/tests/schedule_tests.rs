use tournament_core::{
    build_pairings, effective_game_number, is_reversed, Config, PortAllocator, MAX_PORT, MIN_PORT,
};

#[test]
fn test_effective_game_numbers_never_collide() {
    let rounds = 50i64;
    let mut seen = std::collections::HashSet::new();
    for n in 0..rounds {
        let eff = effective_game_number(rounds, n);
        assert!(seen.insert(eff), "effective game number {} repeated", eff);
        if is_reversed(n) {
            assert_eq!(eff, rounds + n);
        } else {
            assert_eq!(eff, n);
        }
    }
}

#[test]
fn test_is_reversed_alternates() {
    assert!(!is_reversed(0));
    assert!(is_reversed(1));
    assert!(!is_reversed(2));
    assert!(is_reversed(49));
}

#[test]
fn test_build_pairings_lengths() {
    let names: Vec<String> = ["a", "b", "c", "d"].iter().map(|s| s.to_string()).collect();
    let pairs = build_pairings(names);
    // Four players: (4 - 1) * (4 / 2) pairings.
    assert_eq!(pairs.len(), 6);

    let odd: Vec<String> = ["a", "b", "c"].iter().map(|s| s.to_string()).collect();
    assert_eq!(build_pairings(odd).len(), 0);

    assert_eq!(build_pairings(Vec::new()).len(), 0);

    let two: Vec<String> = ["x", "y"].iter().map(|s| s.to_string()).collect();
    let pairs = build_pairings(two);
    assert_eq!(pairs.len(), 1);
    assert_eq!(pairs[0], ("y".to_string(), "x".to_string()));
}

#[test]
fn test_port_allocator_sequence_and_wraparound() {
    let mut alloc = PortAllocator::new();
    assert_eq!(alloc.get_next_port(), MIN_PORT);
    assert_eq!(alloc.get_next_port(), MIN_PORT + 1);
    // Walk to the end of the range: the last port is handed out, then the
    // allocator wraps back to the start.
    let remaining = (MAX_PORT - MIN_PORT - 2) as u32;
    for _ in 0..remaining {
        alloc.get_next_port();
    }
    assert_eq!(alloc.get_next_port(), MAX_PORT);
    assert_eq!(alloc.get_next_port(), MIN_PORT);
}

#[test]
fn test_config_defaults() {
    let config = Config::default();
    assert_eq!(config.rounds_per_pair, 50);
    assert_eq!(config.turns_per_game, 100);
}
