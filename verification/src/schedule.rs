//! The orchestrator's scheduling rules: expanding the round-robin pairing
//! list and keeping the persisted game-number space collision-free when
//! the two sides alternate who moves first.

use vstd::prelude::*;

verus! {

/// Odd repetitions are played with the sides swapped.
pub open spec fn spec_is_reversed(game_number: i64) -> bool {
    game_number % 2 != 0
}

pub fn is_reversed(game_number: i64) -> (r: bool)
    requires
        game_number >= 0,
    ensures
        r == spec_is_reversed(game_number),
{
    game_number % 2 != 0
}

/// The game number a repetition is persisted under: reversed repetitions
/// are shifted past the whole straight range, so the two sub-ranges never
/// meet.
pub open spec fn spec_effective_game_number(rounds_per_pair: i64, game_number: i64) -> int {
    if spec_is_reversed(game_number) {
        rounds_per_pair + game_number
    } else {
        game_number as int
    }
}

pub fn effective_game_number(rounds_per_pair: i64, game_number: i64) -> (r: i64)
    requires
        0 <= game_number < rounds_per_pair,
        rounds_per_pair <= i64::MAX / 2,
    ensures
        r == spec_effective_game_number(rounds_per_pair, game_number),
{
    if game_number % 2 != 0 {
        rounds_per_pair + game_number
    } else {
        game_number
    }
}

/// Persisted game numbers never collide within one matchup: distinct
/// repetitions get distinct effective numbers.
pub proof fn lemma_effective_game_number_injective(rounds_per_pair: i64, n1: i64, n2: i64)
    requires
        0 <= n1 < rounds_per_pair,
        0 <= n2 < rounds_per_pair,
        n1 != n2,
    ensures
        spec_effective_game_number(rounds_per_pair, n1) != spec_effective_game_number(
            rounds_per_pair,
            n2,
        ),
{
}

/// The pairing list round_robin's `generate_rounds` produces for a list
/// of names: a pure function of the names alone, the same in every
/// process and on every machine.
pub uninterp spec fn pairings_of(names: Seq<Seq<char>>) -> Seq<(Seq<char>, Seq<char>)>;

/// A name list as the contracts see it.
pub open spec fn names_view(names: Seq<String>) -> Seq<Seq<char>> {
    names.map_values(|s: String| s@)
}

/// A pairing list as the contracts see it.
pub open spec fn pairings_view(pairs: Seq<(String, String)>) -> Seq<(Seq<char>, Seq<char>)> {
    pairs.map_values(|p: (String, String)| (p.0@, p.1@))
}

/// Relies on round_robin's `generate_rounds` for `Vec<String>`: the
/// result is `pairings_of` the names — a function of the list alone; an
/// odd number of players yields no pairings; an even number `n` of
/// players yields `(n - 1) * (n / 2)` pairings. Panics on an empty list,
/// which `requires` rules out.
#[verifier::external_body]
fn generate_rounds_strings(values: Vec<String>) -> (r: Vec<(String, String)>)
    requires
        values@.len() >= 1,
    ensures
        pairings_view(r@) == pairings_of(names_view(values@)),
        values@.len() % 2 != 0 ==> r@.len() == 0,
        values@.len() % 2 == 0 ==> r@.len() == (values@.len() - 1) * (values@.len() / 2),
{
    round_robin::generate_rounds(values)
}

/// The full round-robin pairing list for the given competitors: empty
/// when there are no competitors or an odd number of them, else
/// `(n - 1) * (n / 2)` pairings of `pairings_of` the names.
pub fn build_pairings(names: Vec<String>) -> (r: Vec<(String, String)>)
    ensures
        names@.len() >= 1 ==> pairings_view(r@) == pairings_of(names_view(names@)),
        names@.len() % 2 != 0 ==> r@.len() == 0,
        names@.len() >= 1 && names@.len() % 2 == 0 ==> r@.len() == (names@.len() - 1) * (
        names@.len() / 2),
        names@.len() == 0 ==> r@.len() == 0,
{
    if names.len() == 0 {
        Vec::new()
    } else {
        generate_rounds_strings(names)
    }
}

} // verus!
