//! Competitor and hazard state: health, max-health and power, with the
//! saturating rules for damage, healing and gambles.
//!
//! Health never exceeds max-health and never drops below zero, whatever
//! sequence of operations is applied; `lemma_health_bounds_preserved`
//! states that once and for all.

use vstd::prelude::*;

verus! {

/// The state of one combatant: competitor or hazard.
#[derive(Clone, Copy, PartialEq, Eq, Structural, Debug)]
pub struct PlayerState {
    pub health: u32,
    pub max_health: u32,
    pub power: u32,
}

/// What a competitor may stake on a gamble node.
#[derive(Clone, Copy, PartialEq, Eq, Structural, Debug)]
pub enum GambleChoices {
    Power,
    Health,
    Skip,
}

/// The answer to a fight offer.
#[derive(Clone, Copy, PartialEq, Eq, Structural, Debug)]
pub enum FightChoices {
    Fight,
    Flee,
}

/// One health/stat operation, for stating what any sequence of them does.
#[derive(Clone, Copy, PartialEq, Eq, Structural, Debug)]
pub enum StateOp {
    Heal,
    Damage,
    Gamble(GambleChoices, u64),
}

/// `v - 1`, floored at zero.
pub open spec fn spec_saturating_dec(v: u32) -> u32 {
    if v > 0 {
        (v - 1) as u32
    } else {
        0
    }
}

/// `v + 1`, capped at `cap` (values already above the cap are untouched).
pub open spec fn spec_capped_inc(v: u32, cap: u32) -> u32 {
    if v + 1 <= cap {
        (v + 1) as u32
    } else {
        v
    }
}

/// A gamble roll in `[0, 10)` applied to one stat: roll 0 halves it,
/// roll 1 doubles it (saturating), rolls 2 to 5 add one (saturating),
/// anything else subtracts one (saturating).
pub open spec fn spec_gamble_value(v: u32, roll: u64) -> u32 {
    if roll < 1 {
        v / 2
    } else if roll < 2 {
        if v > u32::MAX / 2 {
            u32::MAX
        } else {
            (2 * v) as u32
        }
    } else if roll < 6 {
        if v == u32::MAX {
            v
        } else {
            (v + 1) as u32
        }
    } else {
        spec_saturating_dec(v)
    }
}

/// The whole effect of a gamble on a state: Skip changes nothing; Power
/// re-rolls the power stat; Health re-rolls health and re-caps it at
/// max-health.
pub open spec fn spec_apply_gamble(s: PlayerState, c: GambleChoices, roll: u64) -> PlayerState {
    match c {
        GambleChoices::Skip => s,
        GambleChoices::Power => PlayerState {
            health: s.health,
            max_health: s.max_health,
            power: spec_gamble_value(s.power, roll),
        },
        GambleChoices::Health => {
            let h = spec_gamble_value(s.health, roll);
            PlayerState {
                health: if h <= s.max_health {
                    h
                } else {
                    s.max_health
                },
                max_health: s.max_health,
                power: s.power,
            }
        },
    }
}

pub open spec fn spec_heal(s: PlayerState) -> PlayerState {
    PlayerState {
        health: spec_capped_inc(s.health, s.max_health),
        max_health: s.max_health,
        power: s.power,
    }
}

pub open spec fn spec_damage(s: PlayerState) -> PlayerState {
    PlayerState {
        health: spec_saturating_dec(s.health),
        max_health: s.max_health,
        power: s.power,
    }
}

pub open spec fn spec_apply_op(s: PlayerState, op: StateOp) -> PlayerState {
    match op {
        StateOp::Heal => spec_heal(s),
        StateOp::Damage => spec_damage(s),
        StateOp::Gamble(c, roll) => spec_apply_gamble(s, c, roll),
    }
}

/// A sequence of operations applied left to right.
pub open spec fn spec_apply_ops(s: PlayerState, ops: Seq<StateOp>) -> PlayerState
    decreases ops.len(),
{
    if ops.len() == 0 {
        s
    } else {
        spec_apply_op(spec_apply_ops(s, ops.drop_last()), ops.last())
    }
}

impl PlayerState {
    /// Health within bounds: at most max-health (and, by type, at least 0).
    pub open spec fn wf(self) -> bool {
        self.health <= self.max_health
    }

    /// Heals one point, capped at max-health.
    pub fn heal(&mut self)
        ensures
            *final(self) == spec_heal(*old(self)),
            old(self).wf() ==> final(self).wf(),
    {
        if self.health < u32::MAX && self.health + 1 <= self.max_health {
            self.health = self.health + 1;
        }
    }

    /// Takes one point of damage, floored at zero health.
    pub fn damage(&mut self)
        ensures
            *final(self) == spec_damage(*old(self)),
            old(self).wf() ==> final(self).wf(),
    {
        if self.health > 0 {
            self.health = self.health - 1;
        }
    }

    /// Applies a gamble outcome for the chosen stake and roll.
    pub fn apply_gamble(&mut self, choice: GambleChoices, roll: u64)
        requires
            roll < 10,
        ensures
            *final(self) == spec_apply_gamble(*old(self), choice, roll),
            old(self).wf() ==> final(self).wf(),
    {
        match choice {
            GambleChoices::Skip => {},
            GambleChoices::Power => {
                self.power = gamble_value(self.power, roll);
            },
            GambleChoices::Health => {
                let h = gamble_value(self.health, roll);
                self.health = if h <= self.max_health {
                    h
                } else {
                    self.max_health
                };
            },
        }
    }
}

/// One stat put through a gamble roll.
pub fn gamble_value(v: u32, roll: u64) -> (r: u32)
    ensures
        r == spec_gamble_value(v, roll),
{
    if roll < 1 {
        v / 2
    } else if roll < 2 {
        if v > u32::MAX / 2 {
            u32::MAX
        } else {
            2 * v
        }
    } else if roll < 6 {
        if v == u32::MAX {
            v
        } else {
            v + 1
        }
    } else {
        if v > 0 {
            v - 1
        } else {
            0
        }
    }
}

/// `a + b`, capped at `u32::MAX`.
pub open spec fn spec_saturating_add(a: u32, b: u32) -> u32 {
    if a + b > u32::MAX {
        u32::MAX
    } else {
        (a + b) as u32
    }
}

/// A single operation keeps health within bounds.
pub proof fn lemma_op_preserves_wf(s: PlayerState, op: StateOp)
    requires
        s.wf(),
    ensures
        spec_apply_op(s, op).wf(),
{
}

/// Health never exceeds max-health and never drops below zero, after any
/// sequence of heal, damage and gamble operations on a well-formed state.
pub proof fn lemma_health_bounds_preserved(s: PlayerState, ops: Seq<StateOp>)
    requires
        s.wf(),
    ensures
        spec_apply_ops(s, ops).wf(),
        spec_apply_ops(s, ops).health <= spec_apply_ops(s, ops).max_health,
    decreases ops.len(),
{
    if ops.len() > 0 {
        lemma_health_bounds_preserved(s, ops.drop_last());
        lemma_op_preserves_wf(spec_apply_ops(s, ops.drop_last()), ops.last());
    }
}

} // verus!
