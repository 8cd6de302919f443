//! The match state machine.
//!
//! A match holds two competitor states with positions, two hazard states
//! with positions, the board, and one seeded random stream. Turns alternate
//! between the competitors; each turn the acting competitor is offered the
//! types of the nodes its outgoing edges reach and answers with an index.
//! Everything that needs an outside answer — a move choice, a gamble stake,
//! a fight-or-flee decision — suspends the machine in a waiting phase; the
//! caller feeds the answer back in and the machine resolves the rest of the
//! turn, including the hazards' moves, internally.

use vstd::prelude::*;
use vstd::pervasive::VecAdditionalExecFns;
use crate::game_map::{GameMap, MapGenerationError, MapNodeType, lemma_empty_node_exists, out_count, out_targets, pair_count};
use crate::player::{FightChoices, GambleChoices, PlayerState, spec_apply_gamble, spec_damage, spec_heal, spec_saturating_add};
use crate::rng::{rng_below, rng_from_seed};

verus! {

/// The outcome of a finished match.
#[derive(Clone, Copy, PartialEq, Eq, Structural, Debug)]
pub enum GameResult {
    Player1Win,
    Player2Win,
    Tie,
}

/// Who a fight is against.
#[derive(Clone, Copy, PartialEq, Eq, Structural, Debug)]
pub enum FightTarget {
    Opponent,
    Enemy(usize),
}

/// Where the machine stands inside a turn.
#[derive(Clone, Copy, PartialEq, Eq, Structural, Debug)]
pub enum TurnPhase {
    /// Waiting for the acting competitor's move index.
    AwaitMove,
    /// Waiting for a gamble stake; afterwards a fight check may follow.
    AwaitGamble { check_fights_after: bool },
    /// Waiting for fight-or-flee against the given hazard slot.
    AwaitFight { enemy: usize },
    /// The competitor's action is resolved; the hazards still move.
    HazardTurn,
    Finished { result: GameResult },
}

/// What can go wrong while a match runs.
#[derive(Clone, Copy, PartialEq, Eq, Structural, Debug)]
pub enum GameError {
    /// The board could not be generated.
    MapGeneration(MapGenerationError),
    /// No unoccupied non-Teleport node was available for a relocation;
    /// a generated board always has one, so this is never returned.
    NoEmptyNode,
    /// Both sides of a fight had zero power, leaving no valid odds.
    NoCombatPower,
}

/// The move options offered to a competitor: only the node types are
/// revealed; the node identities stay internal.
#[derive(Clone, Debug)]
pub struct WrappedChoices {
    pub node_types: Vec<MapNodeType>,
    internal_choices: Vec<usize>,
}

impl WrappedChoices {
    /// The hidden node indices, aligned with `node_types`.
    pub closed spec fn spec_internal(&self) -> Seq<usize> {
        self.internal_choices@
    }

    /// The revealed node types, in offer order.
    pub closed spec fn spec_node_types(&self) -> Seq<MapNodeType> {
        self.node_types@
    }

    /// The number of offered moves.
    pub fn len(&self) -> (r: usize)
        ensures
            r == self.spec_internal().len(),
    {
        self.internal_choices.len()
    }
}

pub struct Game {
    players: Vec<PlayerState>,
    player_positions: Vec<usize>,
    enemies: Vec<PlayerState>,
    enemy_positions: Vec<usize>,
    map: GameMap,
    rng: rand::rngs::StdRng,
    seed: u64,
    game_id: i64,
    matchup_id: i64,
    turn: u64,
    turns_per_game: u64,
    phase: TurnPhase,
}

impl Game {
    pub closed spec fn spec_players(&self) -> Seq<PlayerState> {
        self.players@
    }

    pub closed spec fn spec_player_positions(&self) -> Seq<usize> {
        self.player_positions@
    }

    pub closed spec fn spec_enemies(&self) -> Seq<PlayerState> {
        self.enemies@
    }

    pub closed spec fn spec_enemy_positions(&self) -> Seq<usize> {
        self.enemy_positions@
    }

    pub closed spec fn spec_map(&self) -> GameMap {
        self.map
    }

    pub closed spec fn spec_turn(&self) -> u64 {
        self.turn
    }

    pub closed spec fn spec_limit(&self) -> u64 {
        self.turns_per_game
    }

    pub closed spec fn spec_phase(&self) -> TurnPhase {
        self.phase
    }

    pub closed spec fn spec_seed(&self) -> u64 {
        self.seed
    }

    /// The side whose turn it is, decided by turn parity.
    pub open spec fn spec_actor(&self) -> int {
        if self.spec_turn() % 2 == 0 {
            0
        } else {
            1
        }
    }

    /// The structural invariant every reachable match state satisfies.
    pub open spec fn wf(&self) -> bool {
        &&& self.spec_players().len() == 2
        &&& self.spec_player_positions().len() == 2
        &&& self.spec_enemies().len() == 2
        &&& self.spec_enemy_positions().len() == 2
        &&& self.spec_map().generated_ok()
        &&& (forall|i: int| 0 <= i < 2 ==> (#[trigger] self.spec_players()[i]).wf())
        &&& (forall|i: int| 0 <= i < 2 ==> (#[trigger] self.spec_enemies()[i]).wf())
        &&& (forall|i: int|
            0 <= i < 2 ==> 2 <= (#[trigger] self.spec_enemies()[i]).power <= 7)
        &&& (forall|i: int|
            0 <= i < 2 ==> (#[trigger] self.spec_player_positions()[i]) < self.spec_map().n())
        &&& (forall|i: int|
            0 <= i < 2 ==> (#[trigger] self.spec_enemy_positions()[i]) < self.spec_map().n())
        &&& self.spec_turn() <= self.spec_limit()
        &&& (!(self.spec_phase() is Finished) ==> self.spec_turn() < self.spec_limit())
        &&& (self.spec_phase() matches TurnPhase::AwaitFight { enemy } ==> enemy < 2)
    }

    /// The result once the match has finished.
    pub fn result(&self) -> (r: Option<GameResult>)
        ensures
            r == (match self.spec_phase() {
                TurnPhase::Finished { result } => Some(result),
                _ => None::<GameResult>,
            }),
    {
        match self.phase {
            TurnPhase::Finished { result } => Some(result),
            _ => None,
        }
    }

    pub fn current_phase(&self) -> (r: TurnPhase)
        ensures
            r == self.spec_phase(),
    {
        self.phase
    }

    pub fn turn(&self) -> (r: u64)
        ensures
            r == self.spec_turn(),
    {
        self.turn
    }

    pub fn seed(&self) -> (r: u64)
        ensures
            r == self.spec_seed(),
    {
        self.seed
    }

    pub fn game_id(&self) -> i64 {
        self.game_id
    }

    pub fn matchup_id(&self) -> i64 {
        self.matchup_id
    }

    pub fn actor(&self) -> (r: usize)
        ensures
            r == self.spec_actor(),
    {
        if self.turn % 2 == 0 {
            0
        } else {
            1
        }
    }

    /// The state of one competitor.
    pub fn player_state(&self, player: usize) -> (r: PlayerState)
        requires
            self.wf(),
            player < 2,
        ensures
            r == self.spec_players()[player as int],
    {
        self.players[player]
    }

    /// The position of one competitor.
    pub fn player_position(&self, player: usize) -> (r: usize)
        requires
            self.wf(),
            player < 2,
        ensures
            r == self.spec_player_positions()[player as int],
    {
        self.player_positions[player]
    }

    /// The state of one hazard slot.
    pub fn enemy_state(&self, index: usize) -> (r: PlayerState)
        requires
            self.wf(),
            index < 2,
        ensures
            r == self.spec_enemies()[index as int],
    {
        self.enemies[index]
    }

    /// The position of one hazard slot.
    pub fn enemy_position(&self, index: usize) -> (r: usize)
        requires
            self.wf(),
            index < 2,
        ensures
            r == self.spec_enemy_positions()[index as int],
    {
        self.enemy_positions[index]
    }

    /// A read-only view of the board.
    pub fn map(&self) -> (r: &GameMap)
        ensures
            r == &self.spec_map(),
    {
        &self.map
    }

    /// The match is over as soon as a competitor's health is zero; the
    /// lower side index is evaluated first, so a double zero counts as a
    /// loss for side zero.
    pub open spec fn spec_game_over(&self) -> Option<GameResult> {
        if self.spec_players()[0].health == 0 {
            Some(GameResult::Player2Win)
        } else if self.spec_players()[1].health == 0 {
            Some(GameResult::Player1Win)
        } else {
            None
        }
    }

    fn check_game_over(&self) -> (r: Option<GameResult>)
        requires
            self.wf(),
        ensures
            r == self.spec_game_over(),
    {
        if self.players[0].health == 0 {
            Some(GameResult::Player2Win)
        } else if self.players[1].health == 0 {
            Some(GameResult::Player1Win)
        } else {
            None
        }
    }

    /// Creates a match: generates the board from the seeded stream, places
    /// the two competitors on distinct empty nodes, and initialises both
    /// hazards. The first competitor acts on turn zero.
    pub fn new(seed: u64, game_id: i64, matchup_id: i64, turns_per_game: u64) -> (r: Result<
        Game,
        GameError,
    >)
        ensures
            r is Ok ==> {
                &&& r->Ok_0.wf()
                &&& r->Ok_0.spec_seed() == seed
                &&& r->Ok_0.spec_turn() == 0
                &&& r->Ok_0.spec_limit() == turns_per_game
                &&& (forall|i: int|
                    0 <= i < 2 ==> (#[trigger] r->Ok_0.spec_players()[i]) == (PlayerState {
                        health: 3,
                        max_health: 3,
                        power: 5,
                    }))
                &&& r->Ok_0.spec_player_positions()[0] != r->Ok_0.spec_player_positions()[1]
                &&& (forall|i: int|
                    0 <= i < 2 ==> r->Ok_0.spec_map().spec_types()[(
                    #[trigger] r->Ok_0.spec_player_positions()[i]) as int]
                        != MapNodeType::Teleport)
                &&& (forall|i: int|
                    0 <= i < 2 ==> {
                        &&& (#[trigger] r->Ok_0.spec_enemies()[i]).health == 1
                        &&& r->Ok_0.spec_enemies()[i].max_health == 1
                        &&& 2 <= r->Ok_0.spec_enemies()[i].power <= 7
                        &&& r->Ok_0.spec_map().spec_types()[r->Ok_0.spec_enemy_positions()[i] as int]
                            != MapNodeType::Teleport
                        &&& r->Ok_0.spec_enemy_positions()[i]
                            != r->Ok_0.spec_player_positions()[0]
                        &&& r->Ok_0.spec_enemy_positions()[i]
                            != r->Ok_0.spec_player_positions()[1]
                    })
                &&& r->Ok_0.spec_enemy_positions()[0] != r->Ok_0.spec_enemy_positions()[1]
                &&& (r->Ok_0.spec_phase() == (if turns_per_game == 0 {
                    TurnPhase::Finished { result: GameResult::Tie }
                } else {
                    TurnPhase::AwaitMove
                }))
            },
            r is Err ==> r->Err_0 is MapGeneration,
    {
        let mut rng = rng_from_seed(seed);
        let map = match GameMap::new(&mut rng) {
            Ok(m) => m,
            Err(e) => {
                return Err(GameError::MapGeneration(e));
            },
        };

        let no_block: Vec<usize> = Vec::new();
        proof {
            lemma_empty_node_exists(map.spec_types(), no_block@);
        }
        let pos_a = match map.get_random_empty_node(&no_block, &mut rng) {
            Some(p) => p,
            None => {
                // Unreachable: a generated board always has a free node.
                proof {
                    assert(false);
                }
                return Err(GameError::NoEmptyNode);
            },
        };
        let mut block_a: Vec<usize> = Vec::new();
        block_a.push(pos_a);
        proof {
            assert(block_a@.len() == 1);
            lemma_empty_node_exists(map.spec_types(), block_a@);
        }
        let pos_b = match map.get_random_empty_node(&block_a, &mut rng) {
            Some(p) => p,
            None => {
                // Unreachable: a generated board always has a free node.
                proof {
                    assert(false);
                }
                return Err(GameError::NoEmptyNode);
            },
        };

        let initial = PlayerState { health: 3, max_health: 3, power: 5 };
        let mut players: Vec<PlayerState> = Vec::new();
        players.push(initial);
        players.push(initial);
        let mut player_positions: Vec<usize> = Vec::new();
        player_positions.push(pos_a);
        player_positions.push(pos_b);
        let placeholder = PlayerState { health: 1, max_health: 1, power: 2 };
        let mut enemies: Vec<PlayerState> = Vec::new();
        enemies.push(placeholder);
        enemies.push(placeholder);
        let mut enemy_positions: Vec<usize> = Vec::new();
        enemy_positions.push(pos_a);
        enemy_positions.push(pos_a);

        let mut game = Game {
            players,
            player_positions,
            enemies,
            enemy_positions,
            map,
            rng,
            seed,
            game_id,
            matchup_id,
            turn: 0,
            turns_per_game,
            phase: if turns_per_game == 0 {
                TurnPhase::Finished { result: GameResult::Tie }
            } else {
                TurnPhase::AwaitMove
            },
        };

        proof {
            assert(game.spec_players()[0] == initial);
            assert(game.spec_players()[1] == initial);
            assert(game.spec_player_positions()[0] == pos_a);
            assert(game.spec_player_positions()[1] == pos_b);
            assert(game.spec_enemies()[0] == placeholder);
            assert(game.spec_enemies()[1] == placeholder);
            assert(game.spec_enemy_positions()[0] == pos_a);
            assert(game.spec_enemy_positions()[1] == pos_a);
            assert(game.wf());
        }
        match game.generate_enemy(0) {
            Ok(()) => {},
            Err(e) => {
                return Err(e);
            },
        }
        match game.generate_enemy(1) {
            Ok(()) => {},
            Err(e) => {
                return Err(e);
            },
        }
        Ok(game)
    }

    /// A node nobody occupies, never the Teleport node, drawn uniformly.
    fn get_random_empty_node(&mut self) -> (r: Result<usize, GameError>)
        requires
            old(self).wf(),
        ensures
            final(self).wf(),
            final(self).spec_players() == old(self).spec_players(),
            final(self).spec_player_positions() == old(self).spec_player_positions(),
            final(self).spec_enemies() == old(self).spec_enemies(),
            final(self).spec_enemy_positions() == old(self).spec_enemy_positions(),
            final(self).spec_map() == old(self).spec_map(),
            final(self).spec_turn() == old(self).spec_turn(),
            final(self).spec_limit() == old(self).spec_limit(),
            final(self).spec_phase() == old(self).spec_phase(),
            final(self).spec_seed() == old(self).spec_seed(),
            r is Ok,
            r is Ok ==> {
                &&& r->Ok_0 < old(self).spec_map().n()
                &&& old(self).spec_map().spec_types()[r->Ok_0 as int] != MapNodeType::Teleport
                &&& r->Ok_0 != old(self).spec_player_positions()[0]
                &&& r->Ok_0 != old(self).spec_player_positions()[1]
                &&& r->Ok_0 != old(self).spec_enemy_positions()[0]
                &&& r->Ok_0 != old(self).spec_enemy_positions()[1]
            },
    {
        let mut blocked: Vec<usize> = Vec::new();
        blocked.push(self.player_positions[0]);
        blocked.push(self.player_positions[1]);
        blocked.push(self.enemy_positions[0]);
        blocked.push(self.enemy_positions[1]);
        proof {
            assert(blocked@.len() == 4);
            lemma_empty_node_exists(self.map.spec_types(), blocked@);
        }
        let picked = self.map.get_random_empty_node(&blocked, &mut self.rng);
        match picked {
            Some(p) => {
                proof {
                    assert(!blocked@.contains(p));
                    assert(blocked@[0] == old(self).spec_player_positions()[0]);
                    assert(blocked@[1] == old(self).spec_player_positions()[1]);
                    assert(blocked@[2] == old(self).spec_enemy_positions()[0]);
                    assert(blocked@[3] == old(self).spec_enemy_positions()[1]);
                }
                Ok(p)
            },
            None => {
                // Unreachable: four blocked positions cannot cover a
                // generated board's free non-Teleport nodes.
                proof {
                    assert(false);
                }
                Err(GameError::NoEmptyNode)
            },
        }
    }

    /// Damages one competitor by a point, health floored at zero.
    fn damage_player(&mut self, player: usize)
        requires
            old(self).wf(),
            player < 2,
        ensures
            final(self).wf(),
            final(self).spec_players() == old(self).spec_players().update(
                player as int,
                spec_damage(old(self).spec_players()[player as int]),
            ),
            final(self).spec_player_positions() == old(self).spec_player_positions(),
            final(self).spec_enemies() == old(self).spec_enemies(),
            final(self).spec_enemy_positions() == old(self).spec_enemy_positions(),
            final(self).spec_map() == old(self).spec_map(),
            final(self).spec_turn() == old(self).spec_turn(),
            final(self).spec_limit() == old(self).spec_limit(),
            final(self).spec_phase() == old(self).spec_phase(),
            final(self).spec_seed() == old(self).spec_seed(),
    {
        let mut p = self.players[player];
        p.damage();
        self.players.set(player, p);
    }

    /// Heals one competitor by a point, capped at max-health.
    fn heal_player(&mut self, player: usize)
        requires
            old(self).wf(),
            player < 2,
        ensures
            final(self).wf(),
            final(self).spec_players() == old(self).spec_players().update(
                player as int,
                spec_heal(old(self).spec_players()[player as int]),
            ),
            final(self).spec_player_positions() == old(self).spec_player_positions(),
            final(self).spec_enemies() == old(self).spec_enemies(),
            final(self).spec_enemy_positions() == old(self).spec_enemy_positions(),
            final(self).spec_map() == old(self).spec_map(),
            final(self).spec_turn() == old(self).spec_turn(),
            final(self).spec_limit() == old(self).spec_limit(),
            final(self).spec_phase() == old(self).spec_phase(),
            final(self).spec_seed() == old(self).spec_seed(),
    {
        let mut p = self.players[player];
        p.heal();
        self.players.set(player, p);
    }

    /// Resolves a fight the given competitor takes part in. On a win
    /// against the opponent: the opponent takes one damage and is
    /// relocated to a random empty node. On a win against a hazard: the
    /// competitor gains half the hazard's power and the hazard slot is
    /// regenerated. On a loss against either: the competitor takes one
    /// damage and is itself relocated. Returns whether the competitor won.
    fn handle_fight(&mut self, player: usize, target: FightTarget) -> (r: Result<bool, GameError>)
        requires
            old(self).wf(),
            player < 2,
            target matches FightTarget::Enemy(e) ==> e < 2,
        ensures
            final(self).wf(),
            final(self).spec_map() == old(self).spec_map(),
            final(self).spec_turn() == old(self).spec_turn(),
            final(self).spec_limit() == old(self).spec_limit(),
            final(self).spec_phase() == old(self).spec_phase(),
            final(self).spec_seed() == old(self).spec_seed(),
            r is Ok ==> spec_fight_outcome(
                *old(self),
                *final(self),
                player as int,
                target,
                r->Ok_0,
            ),
            r is Err ==> (r->Err_0 is NoCombatPower && target is Opponent),
            target is Opponent ==> ((r is Err) <==> (old(self).spec_players()[player as int].power
                == 0 && old(self).spec_players()[1 - player as int].power == 0)),
    {
        let p = self.players[player].power;
        let q = match target {
            FightTarget::Opponent => self.players[1 - player].power,
            FightTarget::Enemy(e) => self.enemies[e].power,
        };
        if p == 0 && q == 0 {
            return Err(GameError::NoCombatPower);
        }
        let win = resolve_combat(&mut self.rng, p, q);
        if win {
            match target {
                FightTarget::Opponent => {
                    let other = 1 - player;
                    self.damage_player(other);
                    let new_pos = match self.get_random_empty_node() {
                        Ok(v) => v,
                        Err(e) => {
                            return Err(e);
                        },
                    };
                    self.player_positions.set(other, new_pos);
                },
                FightTarget::Enemy(e) => {
                    let gain = self.enemies[e].power / 2;
                    let mut ps = self.players[player];
                    ps.power = if ps.power > u32::MAX - gain {
                        u32::MAX
                    } else {
                        ps.power + gain
                    };
                    self.players.set(player, ps);
                    match self.generate_enemy(e) {
                        Ok(()) => {},
                        Err(err) => {
                            return Err(err);
                        },
                    }
                },
            }
        } else {
            self.damage_player(player);
            let new_pos = match self.get_random_empty_node() {
                Ok(v) => v,
                Err(e) => {
                    return Err(e);
                },
            };
            self.player_positions.set(player, new_pos);
        }
        Ok(win)
    }

    /// Fills a hazard slot afresh: one health, power drawn uniformly from
    /// 2 to 7, placed on a random empty node.
    fn generate_enemy(&mut self, index: usize) -> (r: Result<(), GameError>)
        requires
            old(self).wf(),
            index < 2,
        ensures
            final(self).wf(),
            final(self).spec_players() == old(self).spec_players(),
            final(self).spec_player_positions() == old(self).spec_player_positions(),
            final(self).spec_map() == old(self).spec_map(),
            final(self).spec_turn() == old(self).spec_turn(),
            final(self).spec_limit() == old(self).spec_limit(),
            final(self).spec_phase() == old(self).spec_phase(),
            final(self).spec_seed() == old(self).spec_seed(),
            final(self).spec_enemies().len() == 2,
            r is Ok,
            r is Ok ==> {
                &&& final(self).spec_enemies()[index as int].health == 1
                &&& final(self).spec_enemies()[index as int].max_health == 1
                &&& 2 <= final(self).spec_enemies()[index as int].power <= 7
                &&& spec_free_node(*old(self), final(self).spec_enemy_positions()[index as int])
                &&& (forall|i: int|
                    0 <= i < 2 && i != index ==> (#[trigger] final(self).spec_enemies()[i]) == old(self).spec_enemies()[i])
                &&& (forall|i: int|
                    0 <= i < 2 && i != index ==> (#[trigger] final(self).spec_enemy_positions()[i])
                        == old(self).spec_enemy_positions()[i])
            },
    {
        let power64 = rng_below(&mut self.rng, 2, 8);
        let fresh = PlayerState { health: 1, max_health: 1, power: power64 as u32 };
        let pos = match self.get_random_empty_node() {
            Ok(p) => p,
            Err(e) => {
                return Err(e);
            },
        };
        self.enemies.set(index, fresh);
        self.enemy_positions.set(index, pos);
        Ok(())
    }
}

/// Nothing outside the combatants changed: same board, turn, limit, seed.
pub open spec fn spec_frame(pre: Game, post: Game) -> bool {
    &&& post.spec_map() == pre.spec_map()
    &&& post.spec_turn() == pre.spec_turn()
    &&& post.spec_limit() == pre.spec_limit()
    &&& post.spec_seed() == pre.spec_seed()
}

/// A valid relocation target: on the board, not the Teleport node, and
/// distinct from all four positions occupied in `pre`.
pub open spec fn spec_free_node(pre: Game, np: usize) -> bool {
    &&& np < pre.spec_map().n()
    &&& pre.spec_map().spec_types()[np as int] != MapNodeType::Teleport
    &&& np != pre.spec_player_positions()[0]
    &&& np != pre.spec_player_positions()[1]
    &&& np != pre.spec_enemy_positions()[0]
    &&& np != pre.spec_enemy_positions()[1]
}

/// Only the phase changed, to `ph`.
pub open spec fn spec_phase_only(pre: Game, post: Game, ph: TurnPhase) -> bool {
    &&& spec_frame(pre, post)
    &&& post.spec_players() == pre.spec_players()
    &&& post.spec_player_positions() == pre.spec_player_positions()
    &&& post.spec_enemies() == pre.spec_enemies()
    &&& post.spec_enemy_positions() == pre.spec_enemy_positions()
    &&& post.spec_phase() == ph
}

/// A won fight against the opponent: the opponent takes one damage and
/// lands on a free node; the winner and the hazards stay put.
pub open spec fn spec_fight_win_vs_opponent(pre: Game, post: Game, player: int) -> bool {
    let other = 1 - player;
    &&& spec_frame(pre, post)
    &&& post.spec_phase() == pre.spec_phase()
    &&& post.spec_players() == pre.spec_players().update(
        other,
        spec_damage(pre.spec_players()[other]),
    )
    &&& post.spec_player_positions()[player] == pre.spec_player_positions()[player]
    &&& spec_free_node(pre, post.spec_player_positions()[other])
    &&& post.spec_enemies() == pre.spec_enemies()
    &&& post.spec_enemy_positions() == pre.spec_enemy_positions()
}

/// A won fight against a hazard: the winner gains half the hazard's power,
/// nobody moves, and the hazard slot regenerates — one health, power in
/// [2, 7], placed on a free node.
pub open spec fn spec_fight_win_vs_hazard(pre: Game, post: Game, player: int, e: int) -> bool {
    &&& spec_frame(pre, post)
    &&& post.spec_phase() == pre.spec_phase()
    &&& post.spec_players() == pre.spec_players().update(
        player,
        (PlayerState {
            health: pre.spec_players()[player].health,
            max_health: pre.spec_players()[player].max_health,
            power: spec_saturating_add(
                pre.spec_players()[player].power,
                pre.spec_enemies()[e].power / 2,
            ),
        }),
    )
    &&& post.spec_player_positions() == pre.spec_player_positions()
    &&& post.spec_enemies()[e].health == 1
    &&& post.spec_enemies()[e].max_health == 1
    &&& 2 <= post.spec_enemies()[e].power <= 7
    &&& post.spec_enemies()[1 - e] == pre.spec_enemies()[1 - e]
    &&& spec_free_node(pre, post.spec_enemy_positions()[e])
    &&& post.spec_enemy_positions()[1 - e] == pre.spec_enemy_positions()[1 - e]
}

/// A lost fight, against either kind of target: the initiator takes one
/// damage and lands on a free node; the target is untouched.
pub open spec fn spec_fight_loss(pre: Game, post: Game, player: int) -> bool {
    &&& spec_frame(pre, post)
    &&& post.spec_phase() == pre.spec_phase()
    &&& post.spec_players() == pre.spec_players().update(
        player,
        spec_damage(pre.spec_players()[player]),
    )
    &&& post.spec_player_positions()[1 - player] == pre.spec_player_positions()[1 - player]
    &&& spec_free_node(pre, post.spec_player_positions()[player])
    &&& post.spec_enemies() == pre.spec_enemies()
    &&& post.spec_enemy_positions() == pre.spec_enemy_positions()
}

/// Everything a resolved fight may leave behind, by target and outcome.
pub open spec fn spec_fight_outcome(
    pre: Game,
    post: Game,
    player: int,
    target: FightTarget,
    win: bool,
) -> bool {
    match target {
        FightTarget::Opponent => if win {
            spec_fight_win_vs_opponent(pre, post, player)
        } else {
            spec_fight_loss(pre, post, player)
        },
        FightTarget::Enemy(e) => if win {
            spec_fight_win_vs_hazard(pre, post, player, e as int)
        } else {
            spec_fight_loss(pre, post, player)
        },
    }
}

/// Everything a fight check may leave behind: nothing when the node is
/// free; an immediate unavoidable fight when the opponent stands there; a
/// suspension for a fight-or-flee answer when a hazard does.
pub open spec fn spec_fight_check_rel(pre: Game, post: Game, player: int, suspended: bool) -> bool {
    match pre.spec_fight_at(player) {
        Option::None => !suspended && post == pre,
        Option::Some(FightTarget::Opponent) => !suspended && (spec_fight_win_vs_opponent(
            pre,
            post,
            player,
        ) || spec_fight_loss(pre, post, player)),
        Option::Some(FightTarget::Enemy(e)) => suspended && spec_phase_only(
            pre,
            post,
            (TurnPhase::AwaitFight { enemy: e }),
        ),
    }
}

/// The acting competitor's part is over and the phase is concluded from
/// the healths: finished, or the hazards' turn.
pub open spec fn spec_concluded(mid: Game, post: Game) -> bool {
    spec_phase_only(mid, post, spec_conclude_phase(mid.spec_players()))
}

/// An effect-bearing arrival at `node_to` (Normal or Healing): the
/// competitor stands there, a Healing node heals one, nothing else moves.
pub open spec fn spec_effect_applied(pre: Game, mid: Game, player: int, node_to: usize) -> bool {
    &&& spec_frame(pre, mid)
    &&& mid.spec_phase() == pre.spec_phase()
    &&& mid.spec_player_positions() == pre.spec_player_positions().update(player, node_to)
    &&& mid.spec_players() == (if pre.spec_map().spec_types()[node_to as int]
        == MapNodeType::Healing {
        pre.spec_players().update(player, spec_heal(pre.spec_players()[player]))
    } else {
        pre.spec_players()
    })
    &&& mid.spec_enemies() == pre.spec_enemies()
    &&& mid.spec_enemy_positions() == pre.spec_enemy_positions()
}

/// A Teleport relocation: the competitor lands on `np` — on the board,
/// not the Teleport node, and free of everything that was standing when
/// it arrived — with no chained node effect.
pub open spec fn spec_teleport_landing(
    pre: Game,
    post: Game,
    player: int,
    node_to: usize,
    np: usize,
) -> bool {
    &&& np < pre.spec_map().n()
    &&& pre.spec_map().spec_types()[np as int] != MapNodeType::Teleport
    &&& np != node_to
    &&& np != pre.spec_player_positions()[1 - player]
    &&& np != pre.spec_enemy_positions()[0]
    &&& np != pre.spec_enemy_positions()[1]
    &&& spec_frame(pre, post)
    &&& post.spec_phase() == pre.spec_phase()
    &&& post.spec_players() == pre.spec_players()
    &&& post.spec_player_positions() == pre.spec_player_positions().update(player, np)
    &&& post.spec_enemies() == pre.spec_enemies()
    &&& post.spec_enemy_positions() == pre.spec_enemy_positions()
}

/// Everything a regular arrival at `node_to` may leave behind, by the
/// node's type: a Gamble suspends with a fight check owed, the Teleport
/// node relocates with no chained effect (the landing is free, so the
/// fight check it still gets finds nobody), and a Normal or Healing node
/// applies its effect and then resolves the fight check.
pub open spec fn spec_arrival_outcome(
    pre: Game,
    post: Game,
    player: int,
    node_to: usize,
    suspended: bool,
) -> bool {
    let t = pre.spec_map().spec_types()[node_to as int];
    if t == MapNodeType::Gamble {
        &&& suspended
        &&& spec_frame(pre, post)
        &&& post.spec_players() == pre.spec_players()
        &&& post.spec_player_positions() == pre.spec_player_positions().update(player, node_to)
        &&& post.spec_enemies() == pre.spec_enemies()
        &&& post.spec_enemy_positions() == pre.spec_enemy_positions()
        &&& post.spec_phase() == (TurnPhase::AwaitGamble { check_fights_after: true })
    } else if t == MapNodeType::Teleport {
        &&& !suspended
        &&& exists|np: usize| #[trigger] spec_teleport_landing(pre, post, player, node_to, np)
    } else {
        exists|mid: Game|
            #[trigger] spec_effect_applied(pre, mid, player, node_to) && spec_fight_check_rel(
                mid,
                post,
                player,
                suspended,
            )
    }
}

/// An adjacent node the competitor could flee to: a target of an outgoing
/// edge of its position that nobody occupies.
pub open spec fn spec_adjacent_free(pre: Game, player: int, t: usize) -> bool {
    &&& t < pre.spec_map().n()
    &&& pair_count(
        pre.spec_map().spec_edges(),
        pre.spec_player_positions()[player] as int,
        t as int,
    ) > 0
    &&& t != pre.spec_player_positions()[0]
    &&& t != pre.spec_player_positions()[1]
    &&& t != pre.spec_enemy_positions()[0]
    &&& t != pre.spec_enemy_positions()[1]
}

/// Where a flee may land: an unoccupied adjacent node when one exists,
/// else any free node on the board.
pub open spec fn spec_flee_landing(pre: Game, player: int, np: usize) -> bool {
    if exists|t: usize| #[trigger] spec_adjacent_free(pre, player, t) {
        spec_adjacent_free(pre, player, np)
    } else {
        spec_free_node(pre, np)
    }
}

/// Everything a flee landing at `node_to` may leave behind: the
/// competitor stands there, Healing heals, a Gamble suspends without a
/// fight check owed, and the Teleport node does not chain.
pub open spec fn spec_escape_outcome(
    pre: Game,
    post: Game,
    player: int,
    node_to: usize,
    suspended: bool,
) -> bool {
    let t = pre.spec_map().spec_types()[node_to as int];
    &&& spec_frame(pre, post)
    &&& post.spec_player_positions() == pre.spec_player_positions().update(player, node_to)
    &&& post.spec_players() == (if t == MapNodeType::Healing {
        pre.spec_players().update(player, spec_heal(pre.spec_players()[player]))
    } else {
        pre.spec_players()
    })
    &&& post.spec_enemies() == pre.spec_enemies()
    &&& post.spec_enemy_positions() == pre.spec_enemy_positions()
    &&& (if t == MapNodeType::Gamble {
        suspended && post.spec_phase() == (TurnPhase::AwaitGamble { check_fights_after: false })
    } else {
        !suspended && post.spec_phase() == pre.spec_phase()
    })
}

/// Everything a flee attempt may leave behind: an escape landing on some
/// node a flee may land on.
pub open spec fn spec_flee_outcome(pre: Game, post: Game, player: int, suspended: bool) -> bool {
    exists|np: usize|
        #[trigger] spec_flee_landing(pre, player, np) && spec_escape_outcome(
            pre,
            post,
            player,
            np,
            suspended,
        )
}

/// How a step ends once the competitor's action is resolved: either the
/// machine is suspended waiting for an answer, or the phase is concluded.
pub open spec fn spec_step_finish(mid: Game, post: Game, suspended: bool) -> bool {
    if suspended {
        post == mid
    } else {
        spec_concluded(mid, post)
    }
}

/// One gamble roll applied to the staked stat; nothing else changed.
pub open spec fn spec_gambled(
    pre: Game,
    mid: Game,
    player: int,
    choice: GambleChoices,
    roll: u64,
) -> bool {
    &&& roll < 10
    &&& spec_frame(pre, mid)
    &&& mid.spec_phase() == pre.spec_phase()
    &&& mid.spec_players() == pre.spec_players().update(
        player,
        spec_apply_gamble(pre.spec_players()[player], choice, roll),
    )
    &&& mid.spec_player_positions() == pre.spec_player_positions()
    &&& mid.spec_enemies() == pre.spec_enemies()
    &&& mid.spec_enemy_positions() == pre.spec_enemy_positions()
}

/// The fight check runs and the step then finishes.
pub open spec fn spec_checked_then_finished(mid: Game, post: Game, player: int) -> bool {
    exists|mid2: Game, susp: bool|
        #[trigger] spec_fight_check_rel(mid, mid2, player, susp) && spec_step_finish(
            mid2,
            post,
            susp,
        )
}

/// Nothing observable changed (the random stream may have advanced).
pub open spec fn spec_unchanged(pre: Game, post: Game) -> bool {
    spec_phase_only(pre, post, pre.spec_phase())
}

/// A legal step for hazard `i`: a target of an outgoing edge of its
/// position that neither hazard occupies.
pub open spec fn spec_hazard_legal(pre: Game, i: int, t: usize) -> bool {
    &&& t < pre.spec_map().n()
    &&& pair_count(
        pre.spec_map().spec_edges(),
        pre.spec_enemy_positions()[i] as int,
        t as int,
    ) > 0
    &&& t != pre.spec_enemy_positions()[0]
    &&& t != pre.spec_enemy_positions()[1]
}

/// Hazard `i` stepped to `np`, a legal step; nothing else moved.
pub open spec fn spec_hazard_moved(pre: Game, mid: Game, i: int, np: usize) -> bool {
    &&& spec_hazard_legal(pre, i, np)
    &&& spec_frame(pre, mid)
    &&& mid.spec_phase() == pre.spec_phase()
    &&& mid.spec_players() == pre.spec_players()
    &&& mid.spec_player_positions() == pre.spec_player_positions()
    &&& mid.spec_enemies() == pre.spec_enemies()
    &&& mid.spec_enemy_positions() == pre.spec_enemy_positions().update(i, np)
}

/// A hazard-initiated combat happens exactly when the competitor stands
/// on the landing; there is no flee offer in this direction.
pub open spec fn spec_maybe_fight(
    pre: Game,
    post: Game,
    player: int,
    i: usize,
    occupant: usize,
    landing: usize,
) -> bool {
    if occupant == landing {
        exists|win: bool|
            #[trigger] spec_fight_outcome(pre, post, player, FightTarget::Enemy(i), win)
    } else {
        spec_unchanged(pre, post)
    }
}

/// The fights one hazard's landing at `np` causes, against each
/// competitor standing there, in side order.
pub open spec fn spec_hazard_collisions(
    pre: Game,
    mid: Game,
    post: Game,
    i: usize,
    np: usize,
) -> bool {
    exists|mid2: Game|
        #[trigger] spec_maybe_fight(mid, mid2, 0, i, pre.spec_player_positions()[0], np)
            && spec_maybe_fight(mid2, post, 1, i, pre.spec_player_positions()[1], np)
}

/// Everything one hazard's turn may leave behind: it stays put when no
/// legal step exists, else it takes some legal step and fights whoever
/// stands on the landing.
pub open spec fn spec_hazard_step(pre: Game, post: Game, i: usize) -> bool {
    ||| (!(exists|t: usize| #[trigger] spec_hazard_legal(pre, i as int, t)) && spec_unchanged(
        pre,
        post,
    ))
    ||| (exists|np: usize, mid: Game|
        #[trigger] spec_hazard_moved(pre, mid, i as int, np) && spec_hazard_collisions(
            pre,
            mid,
            post,
            i,
            np,
        ))
}

/// The turn counter advances and the phase is settled from the healths
/// and the limit; the combatants are untouched.
pub open spec fn spec_turn_advanced(g2: Game, post: Game) -> bool {
    &&& post.spec_map() == g2.spec_map()
    &&& post.spec_limit() == g2.spec_limit()
    &&& post.spec_seed() == g2.spec_seed()
    &&& post.spec_players() == g2.spec_players()
    &&& post.spec_player_positions() == g2.spec_player_positions()
    &&& post.spec_enemies() == g2.spec_enemies()
    &&& post.spec_enemy_positions() == g2.spec_enemy_positions()
    &&& post.spec_phase() == spec_turn_end_phase(
        g2.spec_players(),
        (g2.spec_turn() + 1) as u64,
        g2.spec_limit(),
    )
    &&& post.spec_turn() == (if g2.spec_players()[0].health == 0 || g2.spec_players()[1].health
        == 0 {
        g2.spec_turn()
    } else {
        (g2.spec_turn() + 1) as u64
    })
}

/// The phase a completed turn leaves behind: the match ends as soon as a
/// health is zero (side zero checked first), ties once the turn limit is
/// reached, and otherwise waits for the next move.
pub open spec fn spec_turn_end_phase(players: Seq<PlayerState>, next_turn: u64, limit: u64) -> TurnPhase {
    if players[0].health == 0 {
        TurnPhase::Finished { result: GameResult::Player2Win }
    } else if players[1].health == 0 {
        TurnPhase::Finished { result: GameResult::Player1Win }
    } else if next_turn >= limit {
        TurnPhase::Finished { result: GameResult::Tie }
    } else {
        TurnPhase::AwaitMove
    }
}

/// The phase after a competitor's action resolves: the match ends as soon
/// as a health is zero (side zero checked first), else the hazards move.
pub open spec fn spec_conclude_phase(players: Seq<PlayerState>) -> TurnPhase {
    if players[0].health == 0 {
        TurnPhase::Finished { result: GameResult::Player2Win }
    } else if players[1].health == 0 {
        TurnPhase::Finished { result: GameResult::Player1Win }
    } else {
        TurnPhase::HazardTurn
    }
}

impl Game {
    /// The moves offered to a competitor: one entry per outgoing edge of
    /// its position, the revealed types aligned with the hidden targets.
    pub fn get_available_moves(&self, player: usize) -> (r: WrappedChoices)
        requires
            self.wf(),
            player < 2,
        ensures
            r.spec_internal() == out_targets(
                self.spec_map().spec_edges(),
                self.spec_player_positions()[player as int] as int,
            ),
            r.spec_node_types().len() == r.spec_internal().len(),
            r.spec_internal().len() == out_count(
                self.spec_map().spec_edges(),
                self.spec_player_positions()[player as int] as int,
            ),
            forall|i: int|
                0 <= i < r.spec_internal().len() ==> {
                    &&& (#[trigger] r.spec_internal()[i]) < self.spec_map().n()
                    &&& pair_count(
                        self.spec_map().spec_edges(),
                        self.spec_player_positions()[player as int] as int,
                        r.spec_internal()[i] as int,
                    ) > 0
                    &&& r.spec_node_types()[i] == self.spec_map().spec_types()[r.spec_internal()[i] as int]
                },
    {
        let pos = self.player_positions[player];
        let targets = self.map.get_outgoing_nodes(pos);
        let mut node_types: Vec<MapNodeType> = Vec::new();
        let mut i: usize = 0;
        while i < targets.len()
            invariant
                0 <= i <= targets@.len(),
                self.wf(),
                node_types@.len() == i,
                forall|k: int|
                    0 <= k < targets@.len() ==> (#[trigger] targets@[k]) < self.spec_map().n()
                        && pair_count(
                        self.spec_map().spec_edges(),
                        pos as int,
                        targets@[k] as int,
                    ) > 0,
                forall|k: int|
                    0 <= k < i ==> node_types@[k] == self.spec_map().spec_types()[targets@[k] as int],
            decreases targets@.len() - i,
        {
            let t = targets[i];
            let nt = match self.map.get_node_type(t) {
                Some(nt) => nt,
                None => MapNodeType::Normal,
            };
            node_types.push(nt);
            i += 1;
        }
        WrappedChoices { node_types, internal_choices: targets }
    }

    /// Who is standing on the competitor's node: the opponent first, then
    /// the hazard slots in order.
    pub open spec fn spec_fight_at(&self, player: int) -> Option<FightTarget> {
        let pos = self.spec_player_positions()[player];
        if self.spec_player_positions()[1 - player] == pos {
            Some(FightTarget::Opponent)
        } else if self.spec_enemy_positions()[0] == pos {
            Some(FightTarget::Enemy(0))
        } else if self.spec_enemy_positions()[1] == pos {
            Some(FightTarget::Enemy(1))
        } else {
            None
        }
    }

    fn check_for_fights(&self, player: usize) -> (r: Option<FightTarget>)
        requires
            self.wf(),
            player < 2,
        ensures
            r == self.spec_fight_at(player as int),
    {
        let pos = self.player_positions[player];
        if self.player_positions[1 - player] == pos {
            Some(FightTarget::Opponent)
        } else if self.enemy_positions[0] == pos {
            Some(FightTarget::Enemy(0))
        } else if self.enemy_positions[1] == pos {
            Some(FightTarget::Enemy(1))
        } else {
            None
        }
    }

    /// Ends the acting competitor's part of the turn: the match finishes
    /// if a health reached zero, else the hazards get to move.
    fn conclude_action(&mut self)
        requires
            old(self).wf(),
            !(old(self).spec_phase() is Finished),
        ensures
            final(self).wf(),
            final(self).spec_players() == old(self).spec_players(),
            final(self).spec_player_positions() == old(self).spec_player_positions(),
            final(self).spec_enemies() == old(self).spec_enemies(),
            final(self).spec_enemy_positions() == old(self).spec_enemy_positions(),
            final(self).spec_map() == old(self).spec_map(),
            final(self).spec_turn() == old(self).spec_turn(),
            final(self).spec_limit() == old(self).spec_limit(),
            final(self).spec_seed() == old(self).spec_seed(),
            final(self).spec_phase() == spec_conclude_phase(old(self).spec_players()),
    {
        match self.check_game_over() {
            Some(result) => {
                self.phase = TurnPhase::Finished { result };
            },
            None => {
                self.phase = TurnPhase::HazardTurn;
            },
        }
    }

    /// Resolves what stands on the competitor's node after an arrival: an
    /// opponent means an immediate unavoidable fight; a hazard suspends
    /// the machine for a fight-or-flee answer. Returns whether the machine
    /// is suspended waiting for an answer.
    fn fight_check(&mut self, player: usize) -> (r: Result<bool, GameError>)
        requires
            old(self).wf(),
            player < 2,
            !(old(self).spec_phase() is Finished),
        ensures
            final(self).wf(),
            final(self).spec_map() == old(self).spec_map(),
            final(self).spec_turn() == old(self).spec_turn(),
            final(self).spec_limit() == old(self).spec_limit(),
            final(self).spec_seed() == old(self).spec_seed(),
            r == Ok::<bool, GameError>(true) ==> final(self).spec_phase() is AwaitFight,
            r == Ok::<bool, GameError>(false) ==> final(self).spec_phase() == old(self).spec_phase(),
            old(self).spec_fight_at(player as int) is None ==> r == Ok::<bool, GameError>(false)
                && *final(self) == *old(self),
            r is Err ==> r->Err_0 is NoCombatPower,
            r is Ok ==> spec_fight_check_rel(*old(self), *final(self), player as int, r->Ok_0),
    {
        match self.check_for_fights(player) {
            None => Ok(false),
            Some(FightTarget::Opponent) => {
                match self.handle_fight(player, FightTarget::Opponent) {
                    Ok(_) => Ok(false),
                    Err(e) => Err(e),
                }
            },
            Some(FightTarget::Enemy(e)) => {
                self.phase = TurnPhase::AwaitFight { enemy: e };
                Ok(true)
            },
        }
    }

    /// A regular arrival at `node_to`: the node's effect applies — healing
    /// heals one, a gamble suspends the machine for a stake, the Teleport
    /// node relocates to a random empty node with no chained effect — and
    /// then the node is checked for a fight. Returns whether the machine
    /// is suspended.
    fn handle_regular_move(&mut self, player: usize, node_to: usize) -> (r: Result<
        bool,
        GameError,
    >)
        requires
            old(self).wf(),
            player < 2,
            node_to < old(self).spec_map().n(),
            !(old(self).spec_phase() is Finished),
        ensures
            final(self).wf(),
            final(self).spec_map() == old(self).spec_map(),
            final(self).spec_turn() == old(self).spec_turn(),
            final(self).spec_limit() == old(self).spec_limit(),
            final(self).spec_seed() == old(self).spec_seed(),
            r == Ok::<bool, GameError>(true) ==> (final(self).spec_phase() is AwaitGamble || final(self).spec_phase() is AwaitFight),
            r == Ok::<bool, GameError>(false) ==> final(self).spec_phase() == old(self).spec_phase(),
            r is Err ==> r->Err_0 is NoCombatPower,
            r is Ok ==> spec_arrival_outcome(
                *old(self),
                *final(self),
                player as int,
                node_to,
                r->Ok_0,
            ),
    {
        self.player_positions.set(player, node_to);
        let nt = match self.map.get_node_type(node_to) {
            Some(nt) => nt,
            None => MapNodeType::Normal,
        };
        match nt {
            MapNodeType::Healing => {
                self.heal_player(player);
                let ghost mid = *self;
                let res = self.fight_check(player);
                proof {
                    if res is Ok {
                        assert(spec_effect_applied(*old(self), mid, player as int, node_to));
                        assert(spec_fight_check_rel(mid, *self, player as int, res->Ok_0));
                    }
                }
                res
            },
            MapNodeType::Gamble => {
                self.phase = TurnPhase::AwaitGamble { check_fights_after: true };
                Ok(true)
            },
            MapNodeType::Teleport => {
                let np = match self.get_random_empty_node() {
                    Ok(v) => v,
                    Err(e) => {
                        return Err(e);
                    },
                };
                self.player_positions.set(player, np);
                let ghost mid = *self;
                // The relocation lands on a free node, so this check
                // cannot start a fight; it is the rule nonetheless.
                let res = self.fight_check(player);
                proof {
                    assert(mid.spec_fight_at(player as int) is None);
                    if res is Ok {
                        assert(mid.spec_player_positions() =~= old(
                            self,
                        ).spec_player_positions().update(player as int, np));
                        assert(spec_teleport_landing(
                            *old(self),
                            *self,
                            player as int,
                            node_to,
                            np,
                        ));
                    }
                }
                res
            },
            MapNodeType::Normal => {
                let ghost mid = *self;
                let res = self.fight_check(player);
                proof {
                    if res is Ok {
                        assert(spec_effect_applied(*old(self), mid, player as int, node_to));
                        assert(spec_fight_check_rel(mid, *self, player as int, res->Ok_0));
                    }
                }
                res
            },
        }
    }

    /// A flee landing at `node_to`: healing and gamble effects re-apply,
    /// but the Teleport node does not chain and no fight check follows.
    /// Returns whether the machine is suspended.
    fn handle_escape_move(&mut self, player: usize, node_to: usize) -> (r: Result<bool, GameError>)
        requires
            old(self).wf(),
            player < 2,
            node_to < old(self).spec_map().n(),
            !(old(self).spec_phase() is Finished),
        ensures
            final(self).wf(),
            final(self).spec_map() == old(self).spec_map(),
            final(self).spec_turn() == old(self).spec_turn(),
            final(self).spec_limit() == old(self).spec_limit(),
            final(self).spec_seed() == old(self).spec_seed(),
            r is Ok,
            r == Ok::<bool, GameError>(true) ==> final(self).spec_phase() is AwaitGamble,
            r == Ok::<bool, GameError>(false) ==> final(self).spec_phase() == old(self).spec_phase(),
            r is Ok ==> spec_escape_outcome(
                *old(self),
                *final(self),
                player as int,
                node_to,
                r->Ok_0,
            ),
    {
        self.player_positions.set(player, node_to);
        let nt = match self.map.get_node_type(node_to) {
            Some(nt) => nt,
            None => MapNodeType::Normal,
        };
        match nt {
            MapNodeType::Healing => {
                self.heal_player(player);
                Ok(false)
            },
            MapNodeType::Gamble => {
                self.phase = TurnPhase::AwaitGamble { check_fights_after: false };
                Ok(true)
            },
            MapNodeType::Teleport => Ok(false),
            MapNodeType::Normal => Ok(false),
        }
    }

    /// A flee attempt: the competitor moves to a random unoccupied
    /// adjacent node, falling back to any random empty node when every
    /// neighbour is taken; the landing re-applies heal or gamble effects.
    fn handle_flee(&mut self, player: usize) -> (r: Result<bool, GameError>)
        requires
            old(self).wf(),
            player < 2,
            !(old(self).spec_phase() is Finished),
        ensures
            final(self).wf(),
            final(self).spec_map() == old(self).spec_map(),
            final(self).spec_turn() == old(self).spec_turn(),
            final(self).spec_limit() == old(self).spec_limit(),
            final(self).spec_seed() == old(self).spec_seed(),
            r is Ok,
            r == Ok::<bool, GameError>(true) ==> final(self).spec_phase() is AwaitGamble,
            r == Ok::<bool, GameError>(false) ==> final(self).spec_phase() == old(self).spec_phase(),
            r is Ok ==> spec_flee_outcome(*old(self), *final(self), player as int, r->Ok_0),
    {
        let current = self.player_positions[player];
        let mut blocked: Vec<usize> = Vec::new();
        blocked.push(self.player_positions[0]);
        blocked.push(self.player_positions[1]);
        blocked.push(self.enemy_positions[0]);
        blocked.push(self.enemy_positions[1]);
        proof {
            assert forall|t: usize| blocked@.contains(t) implies (t == old(
                self,
            ).spec_player_positions()[0] || t == old(self).spec_player_positions()[1] || t == old(
                self,
            ).spec_enemy_positions()[0] || t == old(self).spec_enemy_positions()[1]) by {
                let j = choose|j: int| 0 <= j < blocked@.len() && blocked@[j] == t;
            }
            assert(blocked@[0] == old(self).spec_player_positions()[0]);
            assert(blocked@[1] == old(self).spec_player_positions()[1]);
            assert(blocked@[2] == old(self).spec_enemy_positions()[0]);
            assert(blocked@[3] == old(self).spec_enemy_positions()[1]);
        }
        let moves = self.map.shuffle_available_moves(current, &blocked, &mut self.rng);
        let new_pos = if moves.len() > 0 {
            let m = moves[0];
            proof {
                assert(moves@.contains(moves@[0]));
                assert(spec_adjacent_free(*old(self), player as int, m));
            }
            m
        } else {
            proof {
                assert forall|t: usize|
                    !spec_adjacent_free(*old(self), player as int, t) by {
                    if spec_adjacent_free(*old(self), player as int, t) {
                        assert(moves@.contains(t));
                    }
                }
            }
            match self.get_random_empty_node() {
                Ok(v) => v,
                Err(e) => {
                    return Err(e);
                },
            }
        };
        proof {
            assert(spec_flee_landing(*old(self), player as int, new_pos));
        }
        let ghost pre_escape = *self;
        let res = self.handle_escape_move(player, new_pos);
        proof {
            assert(spec_escape_outcome(pre_escape, *self, player as int, new_pos, res->Ok_0));
            assert(spec_escape_outcome(*old(self), *self, player as int, new_pos, res->Ok_0));
        }
        res
    }

    /// The acting competitor's move answer. An index into the offered
    /// moves relocates the competitor there and applies the node's
    /// effects; an out-of-range index is the invalid-move rule — one point
    /// of damage and no movement.
    pub fn apply_move_choice(&mut self, choice_index: usize) -> (r: Result<(), GameError>)
        requires
            old(self).wf(),
            old(self).spec_phase() is AwaitMove,
        ensures
            final(self).wf(),
            final(self).spec_map() == old(self).spec_map(),
            final(self).spec_turn() == old(self).spec_turn(),
            final(self).spec_limit() == old(self).spec_limit(),
            final(self).spec_seed() == old(self).spec_seed(),
            r is Ok ==> (final(self).spec_phase() is AwaitGamble || final(self).spec_phase() is AwaitFight || final(self).spec_phase() is HazardTurn || final(self).spec_phase() is Finished),
            r is Err ==> r->Err_0 is NoCombatPower,
            choice_index >= out_count(
                old(self).spec_map().spec_edges(),
                old(self).spec_player_positions()[old(self).spec_actor()] as int,
            ) ==> {
                &&& r is Ok
                &&& final(self).spec_players() == old(self).spec_players().update(
                    old(self).spec_actor(),
                    spec_damage(old(self).spec_players()[old(self).spec_actor()]),
                )
                &&& final(self).spec_player_positions() == old(self).spec_player_positions()
                &&& final(self).spec_enemies() == old(self).spec_enemies()
                &&& final(self).spec_enemy_positions() == old(self).spec_enemy_positions()
                &&& final(self).spec_phase() == spec_conclude_phase(final(self).spec_players())
            },
            r is Ok && choice_index < out_count(
                old(self).spec_map().spec_edges(),
                old(self).spec_player_positions()[old(self).spec_actor()] as int,
            ) ==> exists|mid: Game, susp: bool|
                #![trigger spec_arrival_outcome(
                    *old(self),
                    mid,
                    old(self).spec_actor(),
                    out_targets(
                        old(self).spec_map().spec_edges(),
                        old(self).spec_player_positions()[old(self).spec_actor()] as int,
                    )[choice_index as int],
                    susp,
                )]
                {
                    &&& spec_arrival_outcome(
                        *old(self),
                        mid,
                        old(self).spec_actor(),
                        out_targets(
                            old(self).spec_map().spec_edges(),
                            old(self).spec_player_positions()[old(self).spec_actor()] as int,
                        )[choice_index as int],
                        susp,
                    )
                    &&& spec_step_finish(mid, *final(self), susp)
                },
    {
        let player = self.actor();
        let choices = self.get_available_moves(player);
        if choice_index < choices.internal_choices.len() {
            let node_to = choices.internal_choices[choice_index];
            let suspended = match self.handle_regular_move(player, node_to) {
                Ok(s) => s,
                Err(e) => {
                    return Err(e);
                },
            };
            let ghost mid = *self;
            if !suspended {
                self.conclude_action();
            }
            proof {
                assert(spec_arrival_outcome(
                    *old(self),
                    mid,
                    player as int,
                    node_to,
                    suspended,
                ));
                assert(spec_step_finish(mid, *self, suspended));
            }
            Ok(())
        } else {
            self.damage_player(player);
            self.conclude_action();
            Ok(())
        }
    }

    /// The acting competitor's gamble stake. One roll in `[0, 10)` is
    /// drawn and applied to the staked stat; a gamble reached by a regular
    /// move is followed by the fight check for its node.
    pub fn apply_gamble_choice(&mut self, choice: GambleChoices) -> (r: Result<(), GameError>)
        requires
            old(self).wf(),
            old(self).spec_phase() is AwaitGamble,
        ensures
            final(self).wf(),
            final(self).spec_map() == old(self).spec_map(),
            final(self).spec_turn() == old(self).spec_turn(),
            final(self).spec_limit() == old(self).spec_limit(),
            final(self).spec_seed() == old(self).spec_seed(),
            r is Ok ==> (final(self).spec_phase() is AwaitFight || final(self).spec_phase() is HazardTurn || final(self).spec_phase() is Finished),
            r is Err ==> r->Err_0 is NoCombatPower,
            old(self).spec_phase() == (TurnPhase::AwaitGamble { check_fights_after: false }) ==> {
                &&& r is Ok
                &&& (exists|roll: u64|
                    roll < 10 && final(self).spec_players() == old(self).spec_players().update(
                        old(self).spec_actor(),
                        crate::player::spec_apply_gamble(
                            old(self).spec_players()[old(self).spec_actor()],
                            choice,
                            roll,
                        ),
                    ))
                &&& final(self).spec_player_positions() == old(self).spec_player_positions()
                &&& final(self).spec_enemies() == old(self).spec_enemies()
                &&& final(self).spec_enemy_positions() == old(self).spec_enemy_positions()
                &&& final(self).spec_phase() == spec_conclude_phase(final(self).spec_players())
            },
            r is Ok && old(self).spec_phase() == (TurnPhase::AwaitGamble {
                check_fights_after: true,
            }) ==> exists|roll: u64, mid: Game|
                #[trigger] spec_gambled(*old(self), mid, old(self).spec_actor(), choice, roll)
                    && spec_checked_then_finished(mid, *final(self), old(self).spec_actor()),
    {
        let check_after = match self.phase {
            TurnPhase::AwaitGamble { check_fights_after } => check_fights_after,
            _ => false,
        };
        let player = self.actor();
        let roll = rng_below(&mut self.rng, 0, 10);
        let mut p = self.players[player];
        p.apply_gamble(choice, roll);
        self.players.set(player, p);
        let ghost gambled = *self;
        proof {
            assert(spec_gambled(*old(self), gambled, player as int, choice, roll));
        }
        if check_after {
            let suspended = match self.fight_check(player) {
                Ok(s) => s,
                Err(e) => {
                    return Err(e);
                },
            };
            let ghost checked = *self;
            if !suspended {
                self.conclude_action();
            }
            proof {
                assert(spec_fight_check_rel(gambled, checked, player as int, suspended));
                assert(spec_step_finish(checked, *self, suspended));
                assert(spec_checked_then_finished(gambled, *self, player as int));
            }
        } else {
            self.conclude_action();
        }
        Ok(())
    }

    /// The acting competitor's answer to a hazard encounter: fight
    /// resolves combat at once; flee attempts to escape to an adjacent
    /// free node.
    pub fn apply_fight_choice(&mut self, choice: FightChoices) -> (r: Result<(), GameError>)
        requires
            old(self).wf(),
            old(self).spec_phase() is AwaitFight,
        ensures
            final(self).wf(),
            final(self).spec_map() == old(self).spec_map(),
            final(self).spec_turn() == old(self).spec_turn(),
            final(self).spec_limit() == old(self).spec_limit(),
            final(self).spec_seed() == old(self).spec_seed(),
            r is Ok,
            r is Ok ==> (final(self).spec_phase() is AwaitGamble || final(self).spec_phase() is HazardTurn || final(self).spec_phase() is Finished),
            (match old(self).spec_phase() {
                TurnPhase::AwaitFight { enemy } => {
                    &&& (choice == FightChoices::Fight ==> exists|mid: Game, win: bool|
                        #[trigger] spec_fight_outcome(
                            *old(self),
                            mid,
                            old(self).spec_actor(),
                            FightTarget::Enemy(enemy),
                            win,
                        ) && spec_concluded(mid, *final(self)))
                    &&& (choice == FightChoices::Flee ==> exists|mid: Game, susp: bool|
                        #[trigger] spec_flee_outcome(*old(self), mid, old(self).spec_actor(), susp)
                            && spec_step_finish(mid, *final(self), susp))
                },
                _ => true,
            }),
    {
        let enemy = match self.phase {
            TurnPhase::AwaitFight { enemy } => enemy,
            _ => 0,
        };
        let player = self.actor();
        match choice {
            FightChoices::Fight => {
                let won = match self.handle_fight(player, FightTarget::Enemy(enemy)) {
                    Ok(w) => w,
                    Err(e) => {
                        return Err(e);
                    },
                };
                let ghost mid = *self;
                self.conclude_action();
                proof {
                    assert(spec_fight_outcome(
                        *old(self),
                        mid,
                        player as int,
                        FightTarget::Enemy(enemy),
                        won,
                    ));
                    assert(spec_concluded(mid, *self));
                }
                Ok(())
            },
            FightChoices::Flee => {
                let suspended = match self.handle_flee(player) {
                    Ok(s) => s,
                    Err(e) => {
                        return Err(e);
                    },
                };
                let ghost mid = *self;
                if !suspended {
                    self.conclude_action();
                }
                proof {
                    assert(spec_flee_outcome(*old(self), mid, player as int, suspended));
                    assert(spec_step_finish(mid, *self, suspended));
                }
                Ok(())
            },
        }
    }

    /// A hazard-initiated combat with one competitor: the competitor's
    /// health never rises and its power never falls.
    fn hazard_fight(&mut self, player: usize, i: usize) -> (r: Result<(), GameError>)
        requires
            old(self).wf(),
            player < 2,
            i < 2,
        ensures
            final(self).wf(),
            final(self).spec_map() == old(self).spec_map(),
            final(self).spec_turn() == old(self).spec_turn(),
            final(self).spec_limit() == old(self).spec_limit(),
            final(self).spec_seed() == old(self).spec_seed(),
            final(self).spec_phase() == old(self).spec_phase(),
            r is Ok,
            r is Ok ==> exists|win: bool|
                #[trigger] spec_fight_outcome(
                    *old(self),
                    *final(self),
                    player as int,
                    FightTarget::Enemy(i),
                    win,
                ),
            r is Ok ==> forall|p: int|
                0 <= p < 2 ==> {
                    &&& (#[trigger] final(self).spec_players()[p]).health <= old(self).spec_players()[p].health
                    &&& final(self).spec_players()[p].max_health == old(self).spec_players()[p].max_health
                    &&& final(self).spec_players()[p].power >= old(self).spec_players()[p].power
                },
    {
        let ghost base = self.spec_players();
        let won = match self.handle_fight(player, FightTarget::Enemy(i)) {
            Ok(w) => w,
            Err(e) => {
                return Err(e);
            },
        };
        proof {
            assert(spec_fight_outcome(*old(self), *self, player as int, FightTarget::Enemy(i), won));
            assert forall|p: int|
                0 <= p < 2 implies {
                &&& (#[trigger] self.spec_players()[p]).health <= base[p].health
                &&& self.spec_players()[p].max_health == base[p].max_health
                &&& self.spec_players()[p].power >= base[p].power
            } by {
                if won {
                    assert(self.spec_players() == base.update(
                        player as int,
                        (PlayerState {
                            health: base[player as int].health,
                            max_health: base[player as int].max_health,
                            power: spec_saturating_add(
                                base[player as int].power,
                                old(self).spec_enemies()[i as int].power / 2,
                            ),
                        }),
                    ));
                } else {
                    assert(self.spec_players() == base.update(
                        player as int,
                        spec_damage(base[player as int]),
                    ));
                }
            }
        }
        Ok(())
    }

    /// One hazard's move: a uniformly random legal step that avoids the
    /// other hazard; landing on a competitor resolves combat at once, with
    /// no flee option. Competitor health never rises here, and competitor
    /// power never falls.
    fn enemy_move(&mut self, i: usize) -> (r: Result<(), GameError>)
        requires
            old(self).wf(),
            i < 2,
        ensures
            final(self).wf(),
            final(self).spec_map() == old(self).spec_map(),
            final(self).spec_turn() == old(self).spec_turn(),
            final(self).spec_limit() == old(self).spec_limit(),
            final(self).spec_seed() == old(self).spec_seed(),
            final(self).spec_phase() == old(self).spec_phase(),
            r is Ok,
            r is Ok ==> spec_hazard_step(*old(self), *final(self), i),
            r is Ok ==> forall|p: int|
                0 <= p < 2 ==> {
                    &&& (#[trigger] final(self).spec_players()[p]).health <= old(self).spec_players()[p].health
                    &&& final(self).spec_players()[p].max_health == old(self).spec_players()[p].max_health
                    &&& final(self).spec_players()[p].power >= old(self).spec_players()[p].power
                },
    {
        let current = self.enemy_positions[i];
        let mut blocked: Vec<usize> = Vec::new();
        blocked.push(self.enemy_positions[0]);
        blocked.push(self.enemy_positions[1]);
        proof {
            assert forall|t: usize| blocked@.contains(t) implies (t == old(
                self,
            ).spec_enemy_positions()[0] || t == old(self).spec_enemy_positions()[1]) by {
                let j = choose|j: int| 0 <= j < blocked@.len() && blocked@[j] == t;
            }
            assert(blocked@[0] == old(self).spec_enemy_positions()[0]);
            assert(blocked@[1] == old(self).spec_enemy_positions()[1]);
        }
        let moves = self.map.shuffle_available_moves(current, &blocked, &mut self.rng);
        if moves.len() == 0 {
            proof {
                assert forall|t: usize| !spec_hazard_legal(*old(self), i as int, t) by {
                    if spec_hazard_legal(*old(self), i as int, t) {
                        assert(moves@.contains(t));
                    }
                }
                assert(spec_unchanged(*old(self), *self));
            }
            return Ok(());
        }
        let new_pos = moves[0];
        proof {
            assert(moves@.contains(moves@[0]));
            assert(spec_hazard_legal(*old(self), i as int, new_pos));
        }
        self.enemy_positions.set(i, new_pos);
        let ghost mid = *self;
        proof {
            assert(spec_hazard_moved(*old(self), mid, i as int, new_pos));
        }
        let p0 = self.player_positions[0];
        let p1 = self.player_positions[1];
        let ghost base0 = self.spec_players();
        if p0 == new_pos {
            match self.hazard_fight(0, i) {
                Ok(()) => {},
                Err(e) => {
                    return Err(e);
                },
            }
        }
        let ghost mid2 = *self;
        let ghost base1 = self.spec_players();
        proof {
            assert(spec_maybe_fight(mid, mid2, 0, i, old(self).spec_player_positions()[0],
                new_pos));
        }
        if p1 == new_pos {
            match self.hazard_fight(1, i) {
                Ok(()) => {},
                Err(e) => {
                    return Err(e);
                },
            }
        }
        proof {
            assert(spec_maybe_fight(mid2, *self, 1, i, old(self).spec_player_positions()[1],
                new_pos));
            assert(spec_hazard_collisions(*old(self), mid, *self, i, new_pos));
            assert(spec_hazard_step(*old(self), *self, i));
        }
        proof {
            assert forall|p: int|
                0 <= p < 2 implies {
                &&& (#[trigger] self.spec_players()[p]).health <= base0[p].health
                &&& self.spec_players()[p].max_health == base0[p].max_health
                &&& self.spec_players()[p].power >= base0[p].power
            } by {
                assert(base1[p].health <= base0[p].health);
                assert(self.spec_players()[p].health <= base1[p].health);
                assert(base1[p].max_health == base0[p].max_health);
                assert(self.spec_players()[p].max_health == base1[p].max_health);
                assert(base1[p].power >= base0[p].power);
                assert(self.spec_players()[p].power >= base1[p].power);
            }
        }
        Ok(())
    }

    /// Both hazards take their turn, then the turn counter advances: the
    /// match finishes if a competitor is at zero health, ties once the
    /// turn limit is reached, and otherwise waits for the next move.
    pub fn handle_enemy_turn(&mut self) -> (r: Result<(), GameError>)
        requires
            old(self).wf(),
            old(self).spec_phase() is HazardTurn,
        ensures
            final(self).wf(),
            final(self).spec_map() == old(self).spec_map(),
            final(self).spec_limit() == old(self).spec_limit(),
            final(self).spec_seed() == old(self).spec_seed(),
            r is Ok,
            r is Ok ==> final(self).spec_phase() == spec_turn_end_phase(
                final(self).spec_players(),
                (old(self).spec_turn() + 1) as u64,
                old(self).spec_limit(),
            ),
            r is Ok && final(self).spec_phase() is AwaitMove ==> final(self).spec_turn() == old(self).spec_turn() + 1,
            r is Ok ==> exists|g1: Game, g2: Game|
                #![trigger spec_hazard_step(*old(self), g1, 0), spec_hazard_step(g1, g2, 1)]
                {
                    &&& spec_hazard_step(*old(self), g1, 0)
                    &&& spec_hazard_step(g1, g2, 1)
                    &&& spec_turn_advanced(g2, *final(self))
                },
            r is Ok ==> forall|p: int|
                0 <= p < 2 ==> {
                    &&& (#[trigger] final(self).spec_players()[p]).health <= old(self).spec_players()[p].health
                    &&& final(self).spec_players()[p].max_health == old(self).spec_players()[p].max_health
                    &&& final(self).spec_players()[p].power >= old(self).spec_players()[p].power
                },
    {
        let ghost start_players = self.spec_players();
        match self.enemy_move(0) {
            Ok(()) => {},
            Err(e) => {
                return Err(e);
            },
        }
        let ghost g1 = *self;
        let ghost mid_players = self.spec_players();
        match self.enemy_move(1) {
            Ok(()) => {},
            Err(e) => {
                return Err(e);
            },
        }
        let ghost g2 = *self;
        match self.check_game_over() {
            Some(result) => {
                self.phase = TurnPhase::Finished { result };
            },
            None => {
                self.turn = self.turn + 1;
                if self.turn >= self.turns_per_game {
                    self.phase = TurnPhase::Finished { result: GameResult::Tie };
                } else {
                    self.phase = TurnPhase::AwaitMove;
                }
            },
        }
        proof {
            assert(spec_hazard_step(*old(self), g1, 0));
            assert(spec_hazard_step(g1, g2, 1));
            assert(spec_turn_advanced(g2, *self));
        }
        proof {
            assert forall|p: int|
                0 <= p < 2 implies {
                &&& (#[trigger] self.spec_players()[p]).health <= start_players[p].health
                &&& self.spec_players()[p].max_health == start_players[p].max_health
                &&& self.spec_players()[p].power >= start_players[p].power
            } by {
                assert(mid_players[p].health <= start_players[p].health);
                assert(self.spec_players()[p].health <= mid_players[p].health);
                assert(mid_players[p].max_health == start_players[p].max_health);
                assert(self.spec_players()[p].max_health == mid_players[p].max_health);
                assert(mid_players[p].power >= start_players[p].power);
                assert(self.spec_players()[p].power >= mid_players[p].power);
            }
        }
        Ok(())
    }
}

/// Combat resolution by one uniform draw: the initiator wins with
/// probability `initiator_power / (initiator_power + opponent_power)`.
pub fn resolve_combat(
    rng: &mut rand::rngs::StdRng,
    initiator_power: u32,
    opponent_power: u32,
) -> (win: bool)
    requires
        initiator_power + opponent_power > 0,
{
    let total: u64 = initiator_power as u64 + opponent_power as u64;
    let roll = rng_below(rng, 0, total);
    roll < initiator_power as u64
}

} // verus!
