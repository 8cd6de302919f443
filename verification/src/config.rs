//! The tournament parameters the core logic consumes. Timeout handling
//! stays with the runner around the library; the core needs only the
//! repetition count and the turn limit.

use vstd::prelude::*;

verus! {

/// How many repetitions each pairing plays and how many turns a match may
/// run before it ties.
#[derive(Clone, Copy, PartialEq, Eq, Structural, Debug)]
pub struct Config {
    pub rounds_per_pair: u64,
    pub turns_per_game: u64,
}

impl Default for Config {
    /// Fifty repetitions per pairing, one hundred turns per match.
    fn default() -> (r: Config)
        ensures
            r.rounds_per_pair == 50,
            r.turns_per_game == 100,
    {
        Config { rounds_per_pair: 50, turns_per_game: 100 }
    }
}

} // verus!
