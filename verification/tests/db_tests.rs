use tournament_core::{Database, GameResult, GameWinner, RetryDecision};

#[test]
fn test_matchup_order_symmetric_and_stable() {
    let mut db = Database::new();
    let a = String::from("alice");
    let b = String::from("bob");
    let forward = db.get_matchup_order(&a, &b);
    let backward = db.get_matchup_order(&b, &a);
    assert_eq!(forward, backward);
    // The first caller fixed the order as queried.
    assert_eq!(forward, (a.clone(), b.clone()));
    // Repeated calls keep answering the same.
    for _ in 0..3 {
        assert_eq!(db.get_matchup_order(&a, &b), forward);
        assert_eq!(db.get_matchup_order(&b, &a), forward);
    }
    // A pair first seen in the other order keeps that other order.
    let c = String::from("carol");
    let first = db.get_matchup_order(&c, &a);
    assert_eq!(first, (c.clone(), a.clone()));
    assert_eq!(db.get_matchup_order(&a, &c), first);
}

#[test]
fn test_start_matchup_idempotent() {
    let mut db = Database::new();
    let a = String::from("alice");
    let b = String::from("bob");
    let id1 = db.start_matchup(&a, &b).expect("id space");
    let id2 = db.start_matchup(&a, &b).expect("id space");
    // Both orderings converge on the same row.
    let id3 = db.start_matchup(&b, &a).expect("id space");
    assert_eq!(id1, id2);
    assert_eq!(id1, id3);
    assert_eq!(db.matchups_len(), 1);
    // A different pair gets a different row.
    let c = String::from("carol");
    let id4 = db.start_matchup(&a, &c).expect("id space");
    assert_ne!(id1, id4);
    assert_eq!(db.matchups_len(), 2);
}

#[test]
fn test_create_game_idempotent() {
    let mut db = Database::new();
    let a = String::from("alice");
    let b = String::from("bob");
    let matchup = db.start_matchup(&a, &b).expect("id space");
    let id1 = db.create_game(matchup, 3, 777).expect("id space");
    // A re-invocation after partial failure: same key, even another seed.
    let id2 = db.create_game(matchup, 3, 999).expect("id space");
    assert_eq!(id1, id2);
    assert_eq!(db.games_len(), 1);
    let id3 = db.create_game(matchup, 4, 777).expect("id space");
    assert_ne!(id1, id3);
    assert_eq!(db.games_len(), 2);
    // A new row starts pending.
    assert_eq!(db.game_winner(matchup, 3), Some(GameWinner::Pending));
}

#[test]
fn test_record_turn_idempotent() {
    let mut db = Database::new();
    let a = String::from("alice");
    let b = String::from("bob");
    let matchup = db.start_matchup(&a, &b).expect("id space");
    let game = db.create_game(matchup, 0, 1).expect("id space");
    let path = String::from("results/turn_0.svg");
    db.record_turn(game, 0, &path);
    db.record_turn(game, 0, &path);
    assert_eq!(db.turn_row_count(game, 0), 1);
    assert_eq!(db.turns_len(), 1);
    // Even a different path for the same key is a no-op, not a duplicate.
    let other_path = String::from("results/elsewhere.svg");
    db.record_turn(game, 0, &other_path);
    assert_eq!(db.turn_row_count(game, 0), 1);
    db.record_turn(game, 1, &path);
    assert_eq!(db.turns_len(), 2);
    assert_eq!(db.turn_row_count(game, 1), 1);
}

#[test]
fn test_update_game_result_last_writer_wins() {
    let mut db = Database::new();
    let a = String::from("alice");
    let b = String::from("bob");
    let matchup = db.start_matchup(&a, &b).expect("id space");
    db.create_game(matchup, 0, 1).expect("id space");
    db.update_game_result(matchup, 0, GameResult::Player1Win);
    assert_eq!(db.game_winner(matchup, 0), Some(GameWinner::PlayerA));
    db.update_game_result(matchup, 0, GameResult::Tie);
    assert_eq!(db.game_winner(matchup, 0), Some(GameWinner::Tie));
    db.update_game_result(matchup, 0, GameResult::Player2Win);
    assert_eq!(db.game_winner(matchup, 0), Some(GameWinner::PlayerB));
    // A missing key changes nothing.
    db.update_game_result(matchup, 55, GameResult::Tie);
    assert_eq!(db.game_winner(matchup, 55), None);
    assert_eq!(db.games_len(), 1);
}

/// A storage operation that fails with a transient lock error a fixed
/// number of times, then succeeds.
struct FlakyStore {
    failures_left: u32,
    attempts_seen: u32,
}

impl FlakyStore {
    fn try_write(&mut self) -> Result<i64, &'static str> {
        self.attempts_seen += 1;
        if self.failures_left > 0 {
            self.failures_left -= 1;
            Err("database is locked")
        } else {
            Ok(42)
        }
    }
}

#[test]
fn test_retry_succeeds_after_transient_locks() {
    let mut store = FlakyStore { failures_left: 3, attempts_seen: 0 };
    let mut attempt: u32 = 0;
    let mut delays: Vec<u64> = Vec::new();
    let outcome = loop {
        match store.try_write() {
            Ok(v) => break Ok(v),
            Err(e) => {
                let lock_error = e == "database is locked";
                match tournament_core::retry_decision(attempt, lock_error) {
                    RetryDecision::Retry { delay_ms } => {
                        // The backoff the caller would sleep for.
                        delays.push(delay_ms);
                        attempt += 1;
                    }
                    RetryDecision::GiveUp => break Err(e),
                }
            }
        }
    };
    assert_eq!(outcome, Ok(42));
    assert_eq!(store.attempts_seen, 4);
    assert_eq!(delays, vec![10, 20, 40]);
    for w in delays.windows(2) {
        assert!(w[1] > w[0], "backoff must increase");
    }
}

#[test]
fn test_retry_gives_up_after_limit_and_on_other_errors() {
    // A non-lock failure is never retried.
    assert_eq!(tournament_core::retry_decision(0, false), RetryDecision::GiveUp);
    // A lock failure is retried up to ten times, then surfaced.
    let mut store = FlakyStore { failures_left: u32::MAX, attempts_seen: 0 };
    let mut attempt: u32 = 0;
    let outcome = loop {
        match store.try_write() {
            Ok(v) => break Ok(v),
            Err(e) => match tournament_core::retry_decision(attempt, true) {
                RetryDecision::Retry { .. } => attempt += 1,
                RetryDecision::GiveUp => break Err(e),
            },
        }
    };
    assert_eq!(outcome, Err("database is locked"));
    assert_eq!(store.attempts_seen, 11);
}
