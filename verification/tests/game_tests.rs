use rand::rngs::StdRng;
use rand::SeedableRng;
use tournament_core::{
    resolve_combat, Database, FightChoices, GambleChoices, Game, GameResult, GameWinner,
    PlayerState, TurnPhase,
};

#[test]
fn test_gamble_value_exact() {
    // Roll 0 halves, roll 1 doubles, rolls 2..=5 add one, rolls 6..=9 subtract one.
    assert_eq!(tournament_core::gamble_value(5, 0), 2);
    assert_eq!(tournament_core::gamble_value(5, 1), 10);
    for roll in 2..6 {
        assert_eq!(tournament_core::gamble_value(5, roll), 6);
    }
    for roll in 6..10 {
        assert_eq!(tournament_core::gamble_value(5, roll), 4);
    }
    // Saturation at both ends.
    assert_eq!(tournament_core::gamble_value(0, 9), 0);
    assert_eq!(tournament_core::gamble_value(0, 0), 0);
    assert_eq!(tournament_core::gamble_value(u32::MAX, 1), u32::MAX);
    assert_eq!(tournament_core::gamble_value(u32::MAX, 2), u32::MAX);
}

#[test]
fn test_health_bounds_over_operations() {
    let mut s = PlayerState { health: 3, max_health: 3, power: 5 };
    let mut rng_state: u64 = 0x12345;
    for _ in 0..5000 {
        rng_state = rng_state.wrapping_mul(6364136223846793005).wrapping_add(1442695040888963407);
        let op = rng_state >> 33;
        match op % 3 {
            0 => s.heal(),
            1 => s.damage(),
            _ => {
                let choice = match (op / 3) % 3 {
                    0 => GambleChoices::Power,
                    1 => GambleChoices::Health,
                    _ => GambleChoices::Skip,
                };
                s.apply_gamble(choice, (op / 9) % 10);
            }
        }
        assert!(s.health <= s.max_health, "health exceeded max-health");
        assert_eq!(s.max_health, 3);
    }
}

#[test]
fn test_heal_and_damage_saturate() {
    let mut s = PlayerState { health: 0, max_health: 3, power: 1 };
    s.damage();
    assert_eq!(s.health, 0);
    s.heal();
    assert_eq!(s.health, 1);
    s.heal();
    s.heal();
    s.heal();
    assert_eq!(s.health, 3);
}

#[test]
fn test_combat_win_rate_converges() {
    let mut rng = StdRng::seed_from_u64(99);
    let trials = 200_000u32;
    let mut wins = 0u32;
    for _ in 0..trials {
        if resolve_combat(&mut rng, 3, 1) {
            wins += 1;
        }
    }
    let rate = wins as f64 / trials as f64;
    assert!(
        (rate - 0.75).abs() < 0.01,
        "win rate {} strays from 3/(3+1) = 0.75",
        rate
    );
}

#[test]
fn test_combat_win_rate_symmetric_roles() {
    // Whichever side initiates, the two win rates complement each other.
    let mut rng = StdRng::seed_from_u64(123);
    let trials = 100_000u32;
    let mut initiator_wins = 0u32;
    let mut swapped_wins = 0u32;
    for _ in 0..trials {
        if resolve_combat(&mut rng, 2, 5) {
            initiator_wins += 1;
        }
        if resolve_combat(&mut rng, 5, 2) {
            swapped_wins += 1;
        }
    }
    let a = initiator_wins as f64 / trials as f64;
    let b = swapped_wins as f64 / trials as f64;
    assert!((a - 2.0 / 7.0).abs() < 0.01, "rate {} strays from 2/7", a);
    assert!((a + b - 1.0).abs() < 0.02, "role-swapped rates {} + {} stray from 1", a, b);
}

/// Drives one match to completion: side 0 and side 1 both always answer
/// with move index 0, stake nothing on gambles, and always fight.
/// Returns the result and how many turns were recorded.
fn run_scripted_match(seed: u64, db: &mut Database, matchup_id: i64, game_number: i64) -> (GameResult, u64) {
    let game_db_id = db
        .create_game(matchup_id, game_number, seed as i64)
        .expect("id space");
    let mut game = Game::new(seed, game_number, matchup_id, 100).expect("match creation");
    let mut recorded: u64 = 0;
    let mut last_recorded_turn: Option<u64> = None;
    loop {
        match game.current_phase() {
            TurnPhase::AwaitMove => {
                let turn = game.turn();
                if last_recorded_turn != Some(turn) {
                    let path = format!("turn_{}.svg", turn);
                    db.record_turn(game_db_id, turn as i64, &path);
                    last_recorded_turn = Some(turn);
                    recorded += 1;
                }
                game.apply_move_choice(0).expect("move");
            }
            TurnPhase::AwaitGamble { .. } => {
                game.apply_gamble_choice(GambleChoices::Skip).expect("gamble");
            }
            TurnPhase::AwaitFight { .. } => {
                game.apply_fight_choice(FightChoices::Fight).expect("fight");
            }
            TurnPhase::HazardTurn => {
                game.handle_enemy_turn().expect("hazards");
            }
            TurnPhase::Finished { result } => {
                db.update_game_result(matchup_id, game_number, result);
                return (result, recorded);
            }
        }
    }
}

#[test]
fn test_end_to_end_scripted_match() {
    let mut db = Database::new();
    let alpha = String::from("alpha");
    let beta = String::from("beta");
    let matchup_id = db.start_matchup(&alpha, &beta).expect("id space");
    let seed = 20240921u64;
    let (result, recorded) = run_scripted_match(seed, &mut db, matchup_id, 0);
    assert!(matches!(
        result,
        GameResult::Player1Win | GameResult::Player2Win | GameResult::Tie
    ));
    assert!(recorded >= 1 && recorded <= 100);
    // Every executed turn left exactly one persisted row, before the
    // result was finalised.
    let game_db_id = db.create_game(matchup_id, 0, seed as i64).expect("existing row");
    for turn in 0..recorded {
        assert_eq!(db.turn_row_count(game_db_id, turn as i64), 1);
    }
    let winner = db.game_winner(matchup_id, 0).expect("game row exists");
    let expected = match result {
        GameResult::Player1Win => GameWinner::PlayerA,
        GameResult::Player2Win => GameWinner::PlayerB,
        GameResult::Tie => GameWinner::Tie,
    };
    assert_eq!(winner, expected);
}

#[test]
fn test_invalid_choice_damages_and_never_moves() {
    // The step-level rule: an out-of-range index costs the actor exactly
    // one health and moves nobody, whatever the board looks like.
    let mut game = Game::new(7, 0, 0, 100).expect("match creation");
    assert!(matches!(game.current_phase(), TurnPhase::AwaitMove));
    let health_before = game.player_state(0).health;
    let pos_before = game.player_position(0);
    let other_before = game.player_state(1);
    game.apply_move_choice(usize::MAX).expect("invalid move is not an error");
    assert_eq!(game.player_state(0).health, health_before - 1);
    assert_eq!(game.player_position(0), pos_before);
    assert_eq!(game.player_state(1), other_before);
}

#[test]
fn test_idle_competitor_loses_absent_interference() {
    // A competitor that always answers out of range loses one health per
    // turn and never moves; with three max-health it is defeated on its
    // third turn and the opponent wins — provided no hazard interfered.
    let mut found_clean_run = false;
    for seed in 0..400u64 {
        let mut game = Game::new(seed, 0, 0, 100).expect("match creation");
        let mut interfered = false;
        let outcome = loop {
            let h0 = game.player_state(0).health;
            let pos0 = game.player_position(0);
            let h1 = game.player_state(1).health;
            let mut own_invalid_move = false;
            match game.current_phase() {
                TurnPhase::AwaitMove => {
                    let actor = game.actor();
                    if actor == 0 {
                        own_invalid_move = true;
                        game.apply_move_choice(usize::MAX).expect("move");
                    } else {
                        game.apply_move_choice(0).expect("move");
                    }
                }
                TurnPhase::AwaitGamble { .. } => {
                    game.apply_gamble_choice(GambleChoices::Skip).expect("gamble");
                }
                TurnPhase::AwaitFight { .. } => {
                    game.apply_fight_choice(FightChoices::Flee).expect("fight");
                }
                TurnPhase::HazardTurn => {
                    game.handle_enemy_turn().expect("hazards");
                }
                TurnPhase::Finished { result } => break result,
            }
            if own_invalid_move {
                // The invalid-move rule itself, at every occurrence.
                assert_eq!(game.player_state(0).health, h0 - 1, "seed {}", seed);
                assert_eq!(game.player_position(0), pos0, "seed {}", seed);
            } else if game.player_state(0).health != h0 || game.player_position(0) != pos0
                || game.player_state(1).health < h1
            {
                interfered = true;
            }
        };
        if !interfered {
            // Side 0 idles on turns 0, 2 and 4: three invalid moves drain
            // its three health, so the match ends there in side 1's favour.
            assert_eq!(outcome, GameResult::Player2Win, "seed {}", seed);
            assert_eq!(game.player_state(0).health, 0, "seed {}", seed);
            assert_eq!(game.turn(), 4, "seed {}", seed);
            found_clean_run = true;
        }
    }
    assert!(found_clean_run, "no interference-free run among the seeds tried");
}

#[test]
fn test_match_is_replayable_from_seed() {
    // The same seed and the same scripted answers give the same match.
    let mut db1 = Database::new();
    let mut db2 = Database::new();
    let a = String::from("a");
    let b = String::from("b");
    let m1 = db1.start_matchup(&a, &b).expect("id space");
    let m2 = db2.start_matchup(&a, &b).expect("id space");
    let r1 = run_scripted_match(4242, &mut db1, m1, 3);
    let r2 = run_scripted_match(4242, &mut db2, m2, 3);
    assert_eq!(r1, r2);
}

#[test]
fn test_new_game_initial_state() {
    let game = Game::new(1, 5, 9, 100).expect("match creation");
    assert_eq!(game.seed(), 1);
    assert_eq!(game.game_id(), 5);
    assert_eq!(game.matchup_id(), 9);
    assert_eq!(game.turn(), 0);
    for side in 0..2 {
        let p = game.player_state(side);
        assert_eq!(p, PlayerState { health: 3, max_health: 3, power: 5 });
    }
    // The two competitors start on distinct nodes.
    assert_ne!(game.player_position(0), game.player_position(1));
    for slot in 0..2 {
        let e = game.enemy_state(slot);
        assert_eq!(e.health, 1);
        assert_eq!(e.max_health, 1);
        assert!((2..=7).contains(&e.power));
    }
    // A zero-turn match ties immediately.
    let tied = Game::new(1, 5, 9, 0).expect("match creation");
    assert!(matches!(
        tied.current_phase(),
        TurnPhase::Finished { result: GameResult::Tie }
    ));
}
