//! Core of a round-robin tournament runner for a turn-based board game.
//!
//! The library holds the verified logic: procedural map generation with a
//! degree-repair algorithm, the match state machine (movement, combat,
//! healing, gambles, hazards), the persistence layer's idempotent
//! bookkeeping, and the orchestrator's scheduling rules. I/O — containers,
//! HTTP submission channels, SQLite, rendering — lives outside, driven
//! through the state machines defined here.

mod config;
mod db;
mod game;
mod game_map;
mod player;
mod port_utils;
mod retry;
mod rng;
mod schedule;

pub use config::Config;
pub use db::{Database, DbError, GameRow, GameWinner, MatchupRow, TurnRow};
pub use game::{
    Game, GameError, GameResult, FightTarget, TurnPhase, WrappedChoices, resolve_combat,
};
pub use game_map::{
    GameMap, MapEdge, MapGenerationError, MapNodeType, MAX_DEGREE, MIN_DEGREE, REPAIR_BUDGET,
};
pub use player::{FightChoices, GambleChoices, PlayerState, StateOp, gamble_value};
pub use port_utils::{PortAllocator, MAX_PORT, MIN_PORT};
pub use retry::{
    RetryDecision, retry_decision, MAX_DB_RETRIES, RETRY_BASE_DELAY_MS,
};
pub use schedule::{build_pairings, effective_game_number, is_reversed};
