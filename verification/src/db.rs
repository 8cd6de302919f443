//! The persistence layer's bookkeeping: matchups, games and turns, with
//! idempotent get-or-create writes and the canonical name-order cache.
//!
//! The tables are modelled in memory, keyed exactly as the relational
//! layout keys them — matchups unique per name pair, games unique per
//! (matchup, game number), turns unique per (game, turn number) — and every
//! write is specified as a function of the previous table state. A storage
//! backend that executes the same select-before-insert protocol inside a
//! transaction inherits these semantics; the laws proved here are what make
//! re-invocation after partial failure safe.

use vstd::prelude::*;
use crate::game::GameResult;

verus! {

/// The winner column of a game row: `Pending` until the match completes.
#[derive(Clone, Copy, PartialEq, Eq, Structural, Debug)]
pub enum GameWinner {
    Pending,
    PlayerA,
    PlayerB,
    Tie,
}

/// How a finished match's result is recorded.
pub open spec fn spec_winner_of(result: GameResult) -> GameWinner {
    match result {
        GameResult::Player1Win => GameWinner::PlayerA,
        GameResult::Player2Win => GameWinner::PlayerB,
        GameResult::Tie => GameWinner::Tie,
    }
}

pub struct MatchupRow {
    pub id: i64,
    pub player_a: String,
    pub player_b: String,
}

pub struct GameRow {
    pub id: i64,
    pub matchup_id: i64,
    pub game_number: i64,
    pub winner: GameWinner,
    pub seed: i64,
}

pub struct TurnRow {
    pub game_id: i64,
    pub turn_number: i64,
    pub svg_path: String,
}

struct CacheEntry {
    key_a: String,
    key_b: String,
    first: String,
    second: String,
}

/// Raised when the id space is used up; no further row can be created.
#[derive(Clone, Copy, PartialEq, Eq, Structural, Debug)]
pub enum DbError {
    IdSpaceExhausted,
}

/// A matchup row as the contracts see it: id and the two names.
pub open spec fn matchup_view(r: MatchupRow) -> (i64, Seq<char>, Seq<char>) {
    (r.id, r.player_a@, r.player_b@)
}

pub open spec fn matchups_view(rows: Seq<MatchupRow>) -> Seq<(i64, Seq<char>, Seq<char>)> {
    rows.map_values(|r: MatchupRow| matchup_view(r))
}

/// A turn row as the contracts see it: game id, turn number, artifact path.
pub open spec fn turn_view(r: TurnRow) -> (i64, i64, Seq<char>) {
    (r.game_id, r.turn_number, r.svg_path@)
}

pub open spec fn turns_view(rows: Seq<TurnRow>) -> Seq<(i64, i64, Seq<char>)> {
    rows.map_values(|r: TurnRow| turn_view(r))
}

/// A cache entry as the contracts see it: the queried ordering and the
/// canonical pair it maps to.
spec fn cache_view(e: CacheEntry) -> (Seq<char>, Seq<char>, Seq<char>, Seq<char>) {
    (e.key_a@, e.key_b@, e.first@, e.second@)
}

spec fn caches_view(rows: Seq<CacheEntry>) -> Seq<(Seq<char>, Seq<char>, Seq<char>, Seq<char>)> {
    rows.map_values(|e: CacheEntry| cache_view(e))
}

/// The cached canonical pair for a queried ordering, if any.
pub open spec fn cache_lookup(
    c: Seq<(Seq<char>, Seq<char>, Seq<char>, Seq<char>)>,
    a: Seq<char>,
    b: Seq<char>,
) -> Option<(Seq<char>, Seq<char>)>
    decreases c.len(),
{
    if c.len() == 0 {
        None
    } else if c.last().0 == a && c.last().1 == b {
        Some((c.last().2, c.last().3))
    } else {
        cache_lookup(c.drop_last(), a, b)
    }
}

/// A first query for a pair fixes its canonical order as queried; both
/// orderings are cached pointing at that same pair.
pub open spec fn cache_insert(
    c: Seq<(Seq<char>, Seq<char>, Seq<char>, Seq<char>)>,
    a: Seq<char>,
    b: Seq<char>,
) -> Seq<(Seq<char>, Seq<char>, Seq<char>, Seq<char>)> {
    if cache_lookup(c, a, b) is Some {
        c
    } else {
        c.push((a, b, a, b)).push((b, a, a, b))
    }
}

/// The canonical order a query returns: the cached pair, or the queried
/// order on first encounter.
pub open spec fn matchup_order_of(
    c: Seq<(Seq<char>, Seq<char>, Seq<char>, Seq<char>)>,
    a: Seq<char>,
    b: Seq<char>,
) -> (Seq<char>, Seq<char>) {
    match cache_lookup(c, a, b) {
        Some(v) => v,
        None => (a, b),
    }
}

/// Both orderings of a pair always resolve to the same canonical pair.
pub open spec fn cache_sym(c: Seq<(Seq<char>, Seq<char>, Seq<char>, Seq<char>)>) -> bool {
    forall|a: Seq<char>, b: Seq<char>| #[trigger] cache_lookup(c, a, b) == cache_lookup(c, b, a)
}

/// Inserting a pair keeps the cache symmetric.
pub proof fn lemma_cache_insert_sym(
    c: Seq<(Seq<char>, Seq<char>, Seq<char>, Seq<char>)>,
    x: Seq<char>,
    y: Seq<char>,
)
    requires
        cache_sym(c),
    ensures
        cache_sym(cache_insert(c, x, y)),
{
    let c2 = cache_insert(c, x, y);
    if cache_lookup(c, x, y) is Some {
    } else {
        let c1 = c.push((x, y, x, y));
        assert forall|a: Seq<char>, b: Seq<char>| #[trigger] cache_lookup(c2, a, b)
            == cache_lookup(c2, b, a) by {
            assert(c2.drop_last() =~= c1);
            assert(c1.drop_last() =~= c);
            assert(cache_lookup(c, a, b) == cache_lookup(c, b, a));
            if a == y && b == x {
                assert(cache_lookup(c2, a, b) == Some((x, y)));
            } else {
                assert(cache_lookup(c2, a, b) == cache_lookup(c1, a, b));
            }
            if b == y && a == x {
                assert(cache_lookup(c2, b, a) == Some((x, y)));
            } else {
                assert(cache_lookup(c2, b, a) == cache_lookup(c1, b, a));
            }
            if a == x && b == y {
                assert(cache_lookup(c1, a, b) == Some((x, y)));
            } else {
                assert(cache_lookup(c1, a, b) == cache_lookup(c, a, b));
            }
            if b == x && a == y {
                assert(cache_lookup(c1, b, a) == Some((x, y)));
            } else {
                assert(cache_lookup(c1, b, a) == cache_lookup(c, b, a));
            }
        }
    }
}

/// The canonical order is independent of the order the two names are
/// queried in, once the pair has been seen.
pub proof fn lemma_matchup_order_symmetric(
    c: Seq<(Seq<char>, Seq<char>, Seq<char>, Seq<char>)>,
    a: Seq<char>,
    b: Seq<char>,
)
    requires
        cache_sym(c),
    ensures
        matchup_order_of(cache_insert(c, a, b), a, b) == matchup_order_of(
            cache_insert(c, a, b),
            b,
            a,
        ),
{
    let c2 = cache_insert(c, a, b);
    lemma_cache_insert_sym(c, a, b);
    if cache_lookup(c, a, b) is Some {
    } else {
        let c1 = c.push((a, b, a, b));
        assert(c2.drop_last() =~= c1);
        assert(c1.drop_last() =~= c);
        assert(cache_lookup(c2, b, a) is Some);
    }
}

/// Re-querying a pair neither changes the cache nor the answer.
pub proof fn lemma_matchup_order_stable(
    c: Seq<(Seq<char>, Seq<char>, Seq<char>, Seq<char>)>,
    a: Seq<char>,
    b: Seq<char>,
)
    ensures
        cache_insert(cache_insert(c, a, b), a, b) == cache_insert(c, a, b),
        matchup_order_of(cache_insert(c, a, b), a, b) == matchup_order_of(c, a, b),
{
    let c2 = cache_insert(c, a, b);
    if cache_lookup(c, a, b) is Some {
    } else {
        let c1 = c.push((a, b, a, b));
        assert(c2.drop_last() =~= c1);
        assert(c1.drop_last() =~= c);
        if a == b {
            assert(cache_lookup(c2, a, b) is Some);
        } else {
            assert(cache_lookup(c2, a, b) == cache_lookup(c1, a, b));
            assert(cache_lookup(c1, a, b) is Some);
        }
    }
}

/// The game row for a key, if present (tables keep at most one).
pub open spec fn find_game(gs: Seq<GameRow>, mid: i64, n: i64) -> Option<GameRow>
    decreases gs.len(),
{
    if gs.len() == 0 {
        None
    } else if gs.last().matchup_id == mid && gs.last().game_number == n {
        Some(gs.last())
    } else {
        find_game(gs.drop_last(), mid, n)
    }
}

/// The games table after a get-or-create: untouched when the key exists,
/// else one new pending row with the given seed and the fresh id.
pub open spec fn spec_create_game(
    gs: Seq<GameRow>,
    mid: i64,
    n: i64,
    seed: i64,
    fresh_id: i64,
) -> Seq<GameRow> {
    if find_game(gs, mid, n) is Some {
        gs
    } else {
        gs.push(
            GameRow { id: fresh_id, matchup_id: mid, game_number: n, winner: GameWinner::Pending, seed },
        )
    }
}

/// The id a get-or-create returns: the existing row's, else the fresh one.
pub open spec fn spec_create_game_id(gs: Seq<GameRow>, mid: i64, n: i64, fresh_id: i64) -> i64 {
    match find_game(gs, mid, n) {
        Some(row) => row.id,
        None => fresh_id,
    }
}

/// A second create for the same key changes nothing and returns the same
/// id, whatever seed or fresh id the retry carries.
pub proof fn lemma_create_game_idempotent(
    gs: Seq<GameRow>,
    mid: i64,
    n: i64,
    seed: i64,
    fresh_id: i64,
    seed2: i64,
    fresh2: i64,
)
    ensures
        spec_create_game(spec_create_game(gs, mid, n, seed, fresh_id), mid, n, seed2, fresh2)
            == spec_create_game(gs, mid, n, seed, fresh_id),
        spec_create_game_id(spec_create_game(gs, mid, n, seed, fresh_id), mid, n, fresh2)
            == spec_create_game_id(gs, mid, n, fresh_id),
{
    let gs1 = spec_create_game(gs, mid, n, seed, fresh_id);
    if find_game(gs, mid, n) is Some {
    } else {
        assert(gs1.drop_last() =~= gs);
        assert(find_game(gs1, mid, n) == Some(gs1.last()));
    }
}

/// Whether a turn row with this key exists.
pub open spec fn turn_present(ts: Seq<(i64, i64, Seq<char>)>, gid: i64, t: i64) -> bool
    decreases ts.len(),
{
    if ts.len() == 0 {
        false
    } else if ts.last().0 == gid && ts.last().1 == t {
        true
    } else {
        turn_present(ts.drop_last(), gid, t)
    }
}

/// The turns table after a record: unchanged when the key exists, else one
/// new row.
pub open spec fn spec_record_turn(
    ts: Seq<(i64, i64, Seq<char>)>,
    gid: i64,
    t: i64,
    path: Seq<char>,
) -> Seq<(i64, i64, Seq<char>)> {
    if turn_present(ts, gid, t) {
        ts
    } else {
        ts.push((gid, t, path))
    }
}

/// Recording the same (game, turn) twice leaves exactly what one recording
/// leaves: the second call is a no-op, whatever path it carries.
pub proof fn lemma_record_turn_idempotent(
    ts: Seq<(i64, i64, Seq<char>)>,
    gid: i64,
    t: i64,
    path: Seq<char>,
    path2: Seq<char>,
)
    ensures
        spec_record_turn(spec_record_turn(ts, gid, t, path), gid, t, path2) == spec_record_turn(
            ts,
            gid,
            t,
            path,
        ),
{
    let ts1 = spec_record_turn(ts, gid, t, path);
    if turn_present(ts, gid, t) {
    } else {
        assert(ts1.drop_last() =~= ts);
        assert(turn_present(ts1, gid, t));
    }
}

/// The matchup row for a canonical name pair, if present.
pub open spec fn find_matchup(
    ms: Seq<(i64, Seq<char>, Seq<char>)>,
    first: Seq<char>,
    second: Seq<char>,
) -> Option<(i64, Seq<char>, Seq<char>)>
    decreases ms.len(),
{
    if ms.len() == 0 {
        None
    } else if ms.last().1 == first && ms.last().2 == second {
        Some(ms.last())
    } else {
        find_matchup(ms.drop_last(), first, second)
    }
}

/// The games table with the winner of one key set; unchanged when the key
/// is absent. The last writer wins.
pub open spec fn spec_update_winner(
    gs: Seq<GameRow>,
    mid: i64,
    n: i64,
    w: GameWinner,
) -> Seq<GameRow>
    decreases gs.len(),
{
    if gs.len() == 0 {
        gs
    } else if gs.last().matchup_id == mid && gs.last().game_number == n {
        gs.drop_last().push(
            GameRow {
                id: gs.last().id,
                matchup_id: gs.last().matchup_id,
                game_number: gs.last().game_number,
                winner: w,
                seed: gs.last().seed,
            },
        )
    } else {
        spec_update_winner(gs.drop_last(), mid, n, w).push(gs.last())
    }
}

/// A missing matchup means no row carries its key.
pub proof fn lemma_find_matchup_none(ms: Seq<(i64, Seq<char>, Seq<char>)>, f: Seq<char>, s: Seq<char>)
    requires
        find_matchup(ms, f, s) is None,
    ensures
        forall|i: int| 0 <= i < ms.len() ==> !((#[trigger] ms[i]).1 == f && ms[i].2 == s),
    decreases ms.len(),
{
    if ms.len() > 0 {
        lemma_find_matchup_none(ms.drop_last(), f, s);
        assert forall|i: int| 0 <= i < ms.len() implies !((#[trigger] ms[i]).1 == f && ms[i].2
            == s) by {
            if i < ms.len() - 1 {
                assert(ms.drop_last()[i] == ms[i]);
            } else {
                assert(ms[i] == ms.last());
            }
        }
    }
}

/// A missing game means no row carries its key.
pub proof fn lemma_find_game_none(gs: Seq<GameRow>, mid: i64, n: i64)
    requires
        find_game(gs, mid, n) is None,
    ensures
        forall|i: int|
            0 <= i < gs.len() ==> !((#[trigger] gs[i]).matchup_id == mid && gs[i].game_number == n),
    decreases gs.len(),
{
    if gs.len() > 0 {
        lemma_find_game_none(gs.drop_last(), mid, n);
        assert forall|i: int| 0 <= i < gs.len() implies !((#[trigger] gs[i]).matchup_id == mid
            && gs[i].game_number == n) by {
            if i < gs.len() - 1 {
                assert(gs.drop_last()[i] == gs[i]);
            } else {
                assert(gs[i] == gs.last());
            }
        }
    }
}

/// An absent turn key means no row carries it.
pub proof fn lemma_turn_absent(ts: Seq<(i64, i64, Seq<char>)>, gid: i64, t: i64)
    requires
        !turn_present(ts, gid, t),
    ensures
        forall|i: int| 0 <= i < ts.len() ==> !((#[trigger] ts[i]).0 == gid && ts[i].1 == t),
    decreases ts.len(),
{
    if ts.len() > 0 {
        lemma_turn_absent(ts.drop_last(), gid, t);
        assert forall|i: int| 0 <= i < ts.len() implies !((#[trigger] ts[i]).0 == gid && ts[i].1
            == t) by {
            if i < ts.len() - 1 {
                assert(ts.drop_last()[i] == ts[i]);
            } else {
                assert(ts[i] == ts.last());
            }
        }
    }
}

/// When the last matching row sits at index `i`, the winner update is the
/// pointwise update of that row.
pub proof fn lemma_update_winner_at(gs: Seq<GameRow>, mid: i64, n: i64, w: GameWinner, i: int)
    requires
        0 <= i < gs.len(),
        gs[i].matchup_id == mid && gs[i].game_number == n,
        forall|j: int|
            i < j < gs.len() ==> !((#[trigger] gs[j]).matchup_id == mid && gs[j].game_number == n),
    ensures
        spec_update_winner(gs, mid, n, w) =~= gs.update(
            i,
            (GameRow {
                id: gs[i].id,
                matchup_id: gs[i].matchup_id,
                game_number: gs[i].game_number,
                winner: w,
                seed: gs[i].seed,
            }),
        ),
    decreases gs.len(),
{
    if i == gs.len() - 1 {
        assert(spec_update_winner(gs, mid, n, w) =~= gs.drop_last().push(
            (GameRow {
                id: gs[i].id,
                matchup_id: gs[i].matchup_id,
                game_number: gs[i].game_number,
                winner: w,
                seed: gs[i].seed,
            }),
        ));
    } else {
        assert(!(gs.last().matchup_id == mid && gs.last().game_number == n));
        assert forall|j: int|
            i < j < gs.drop_last().len() implies !((#[trigger] gs.drop_last()[j]).matchup_id == mid
            && gs.drop_last()[j].game_number == n) by {
            assert(gs.drop_last()[j] == gs[j]);
        }
        assert(gs.drop_last()[i] == gs[i]);
        lemma_update_winner_at(gs.drop_last(), mid, n, w, i);
    }
}

/// With no matching row the winner update changes nothing.
pub proof fn lemma_update_winner_absent(gs: Seq<GameRow>, mid: i64, n: i64, w: GameWinner)
    requires
        forall|j: int|
            0 <= j < gs.len() ==> !((#[trigger] gs[j]).matchup_id == mid && gs[j].game_number == n),
    ensures
        spec_update_winner(gs, mid, n, w) =~= gs,
    decreases gs.len(),
{
    if gs.len() > 0 {
        assert(!(gs.last().matchup_id == mid && gs.last().game_number == n));
        assert forall|j: int|
            0 <= j < gs.drop_last().len() implies !((#[trigger] gs.drop_last()[j]).matchup_id
            == mid && gs.drop_last()[j].game_number == n) by {
            assert(gs.drop_last()[j] == gs[j]);
        }
        lemma_update_winner_absent(gs.drop_last(), mid, n, w);
    }
}

/// No two matchup rows share a name pair.
pub open spec fn matchups_unique(ms: Seq<(i64, Seq<char>, Seq<char>)>) -> bool {
    forall|i: int, j: int|
        0 <= i < j < ms.len() ==> !((#[trigger] ms[i]).1 == (#[trigger] ms[j]).1 && ms[i].2
            == ms[j].2)
}

/// No two game rows share a (matchup, game number) key.
pub open spec fn games_unique(gs: Seq<GameRow>) -> bool {
    forall|i: int, j: int|
        0 <= i < j < gs.len() ==> !((#[trigger] gs[i]).matchup_id == (#[trigger] gs[j]).matchup_id
            && gs[i].game_number == gs[j].game_number)
}

/// No two turn rows share a (game, turn number) key.
pub open spec fn turns_unique(ts: Seq<(i64, i64, Seq<char>)>) -> bool {
    forall|i: int, j: int|
        0 <= i < j < ts.len() ==> !((#[trigger] ts[i]).0 == (#[trigger] ts[j]).0 && ts[i].1
            == ts[j].1)
}

/// Every matchup id was allocated below the counter.
pub open spec fn matchup_ids_below(ms: Seq<(i64, Seq<char>, Seq<char>)>, next: int) -> bool {
    forall|i: int| 0 <= i < ms.len() ==> (#[trigger] ms[i]).0 < next
}

/// Every game id was allocated below the counter.
pub open spec fn game_ids_below(gs: Seq<GameRow>, next: int) -> bool {
    forall|i: int| 0 <= i < gs.len() ==> (#[trigger] gs[i]).id < next
}

/// Appending a fresh matchup key keeps the table unique and id-bounded.
pub proof fn lemma_matchups_push(
    ms: Seq<(i64, Seq<char>, Seq<char>)>,
    f: Seq<char>,
    sec: Seq<char>,
    id: i64,
    next: int,
)
    requires
        matchups_unique(ms),
        matchup_ids_below(ms, next),
        find_matchup(ms, f, sec) is None,
        next <= id,
    ensures
        matchups_unique(ms.push((id, f, sec))),
        matchup_ids_below(ms.push((id, f, sec)), id + 1),
{
    let ms2 = ms.push((id, f, sec));
    lemma_find_matchup_none(ms, f, sec);
    assert forall|i: int, j: int|
        0 <= i < j < ms2.len() implies !((#[trigger] ms2[i]).1 == (#[trigger] ms2[j]).1 && ms2[i].2
        == ms2[j].2) by {
        if j < ms.len() {
            assert(ms2[i] == ms[i]);
            assert(ms2[j] == ms[j]);
        } else {
            assert(ms2[i] == ms[i]);
            assert(ms2[j] == (id, f, sec));
        }
    }
    assert forall|i: int| 0 <= i < ms2.len() implies (#[trigger] ms2[i]).0 < id + 1 by {
        if i < ms.len() {
            assert(ms2[i] == ms[i]);
        } else {
            assert(ms2[i] == (id, f, sec));
        }
    }
}

/// Appending a fresh game key keeps the table unique and id-bounded.
pub proof fn lemma_games_push(gs: Seq<GameRow>, row: GameRow, next: int)
    requires
        games_unique(gs),
        game_ids_below(gs, next),
        find_game(gs, row.matchup_id, row.game_number) is None,
        next <= row.id,
    ensures
        games_unique(gs.push(row)),
        game_ids_below(gs.push(row), row.id + 1),
{
    let gs2 = gs.push(row);
    lemma_find_game_none(gs, row.matchup_id, row.game_number);
    assert forall|i: int, j: int|
        0 <= i < j < gs2.len() implies !((#[trigger] gs2[i]).matchup_id == (
        #[trigger] gs2[j]).matchup_id && gs2[i].game_number == gs2[j].game_number) by {
        if j < gs.len() {
            assert(gs2[i] == gs[i]);
            assert(gs2[j] == gs[j]);
        } else {
            assert(gs2[i] == gs[i]);
            assert(gs2[j] == row);
        }
    }
    assert forall|i: int| 0 <= i < gs2.len() implies (#[trigger] gs2[i]).id < row.id + 1 by {
        if i < gs.len() {
            assert(gs2[i] == gs[i]);
        } else {
            assert(gs2[i] == row);
        }
    }
}

/// Appending an absent turn key keeps the table unique.
pub proof fn lemma_turns_push(ts: Seq<(i64, i64, Seq<char>)>, gid: i64, t: i64, path: Seq<char>)
    requires
        turns_unique(ts),
        !turn_present(ts, gid, t),
    ensures
        turns_unique(ts.push((gid, t, path))),
{
    let ts2 = ts.push((gid, t, path));
    lemma_turn_absent(ts, gid, t);
    assert forall|i: int, j: int|
        0 <= i < j < ts2.len() implies !((#[trigger] ts2[i]).0 == (#[trigger] ts2[j]).0 && ts2[i].1
        == ts2[j].1) by {
        if j < ts.len() {
            assert(ts2[i] == ts[i]);
            assert(ts2[j] == ts[j]);
        } else {
            assert(ts2[i] == ts[i]);
            assert(ts2[j] == (gid, t, path));
        }
    }
}

/// The winner update keeps every key and id in place.
pub proof fn lemma_update_winner_shape(gs: Seq<GameRow>, mid: i64, n: i64, w: GameWinner)
    ensures
        spec_update_winner(gs, mid, n, w).len() == gs.len(),
        forall|i: int|
            0 <= i < gs.len() ==> {
                &&& (#[trigger] spec_update_winner(gs, mid, n, w)[i]).matchup_id
                    == gs[i].matchup_id
                &&& spec_update_winner(gs, mid, n, w)[i].game_number == gs[i].game_number
                &&& spec_update_winner(gs, mid, n, w)[i].id == gs[i].id
            },
    decreases gs.len(),
{
    if gs.len() > 0 {
        lemma_update_winner_shape(gs.drop_last(), mid, n, w);
        let r = spec_update_winner(gs, mid, n, w);
        if gs.last().matchup_id == mid && gs.last().game_number == n {
            assert forall|i: int|
                0 <= i < gs.len() implies ((#[trigger] r[i]).matchup_id == gs[i].matchup_id
                && r[i].game_number == gs[i].game_number && r[i].id == gs[i].id) by {
                if i < gs.len() - 1 {
                    assert(r[i] == gs.drop_last()[i]);
                    assert(gs.drop_last()[i] == gs[i]);
                }
            }
        } else {
            let rr = spec_update_winner(gs.drop_last(), mid, n, w);
            assert forall|i: int|
                0 <= i < gs.len() implies ((#[trigger] r[i]).matchup_id == gs[i].matchup_id
                && r[i].game_number == gs[i].game_number && r[i].id == gs[i].id) by {
                if i < gs.len() - 1 {
                    assert(r[i] == rr[i]);
                    assert(gs.drop_last()[i] == gs[i]);
                } else {
                    assert(r[i] == gs.last());
                }
            }
        }
    }
}

/// The winner update keeps the table unique and id-bounded.
pub proof fn lemma_update_winner_inv(gs: Seq<GameRow>, mid: i64, n: i64, w: GameWinner, next: int)
    requires
        games_unique(gs),
        game_ids_below(gs, next),
    ensures
        games_unique(spec_update_winner(gs, mid, n, w)),
        game_ids_below(spec_update_winner(gs, mid, n, w), next),
{
    lemma_update_winner_shape(gs, mid, n, w);
    let r = spec_update_winner(gs, mid, n, w);
    assert forall|i: int, j: int|
        0 <= i < j < r.len() implies !((#[trigger] r[i]).matchup_id == (#[trigger] r[j]).matchup_id
        && r[i].game_number == r[j].game_number) by {
        assert(r[i].matchup_id == gs[i].matchup_id && r[i].game_number == gs[i].game_number);
        assert(r[j].matchup_id == gs[j].matchup_id && r[j].game_number == gs[j].game_number);
        assert(!(gs[i].matchup_id == gs[j].matchup_id && gs[i].game_number == gs[j].game_number));
    }
    assert forall|i: int| 0 <= i < r.len() implies (#[trigger] r[i]).id < next by {
        assert(r[i].id == gs[i].id);
        assert(gs[i].id < next);
    }
}

/// The matchup/game/turn bookkeeping with its canonical name-order cache.
pub struct Database {
    cache: Vec<CacheEntry>,
    matchups: Vec<MatchupRow>,
    games: Vec<GameRow>,
    turns: Vec<TurnRow>,
    next_id: i64,
}

impl Database {
    pub closed spec fn spec_cache(&self) -> Seq<(Seq<char>, Seq<char>, Seq<char>, Seq<char>)> {
        caches_view(self.cache@)
    }

    pub closed spec fn spec_matchups(&self) -> Seq<(i64, Seq<char>, Seq<char>)> {
        matchups_view(self.matchups@)
    }

    pub closed spec fn spec_games(&self) -> Seq<GameRow> {
        self.games@
    }

    pub closed spec fn spec_turns(&self) -> Seq<(i64, i64, Seq<char>)> {
        turns_view(self.turns@)
    }

    pub closed spec fn spec_next_id(&self) -> i64 {
        self.next_id
    }

    /// The uniqueness invariants of the relational layout, plus the
    /// symmetry of the name-order cache.
    pub open spec fn inv(&self) -> bool {
        &&& cache_sym(self.spec_cache())
        &&& matchups_unique(self.spec_matchups())
        &&& games_unique(self.spec_games())
        &&& turns_unique(self.spec_turns())
        &&& matchup_ids_below(self.spec_matchups(), self.spec_next_id() as int)
        &&& game_ids_below(self.spec_games(), self.spec_next_id() as int)
        &&& 0 <= self.spec_next_id()
    }

    /// An empty store.
    pub fn new() -> (r: Database)
        ensures
            r.inv(),
            r.spec_cache().len() == 0,
            r.spec_matchups().len() == 0,
            r.spec_games().len() == 0,
            r.spec_turns().len() == 0,
            r.spec_next_id() == 0,
    {
        let d = Database {
            cache: Vec::new(),
            matchups: Vec::new(),
            games: Vec::new(),
            turns: Vec::new(),
            next_id: 0,
        };
        proof {
            assert(caches_view(d.cache@) =~= Seq::<
                (Seq<char>, Seq<char>, Seq<char>, Seq<char>),
            >::empty());
            assert(matchups_view(d.matchups@) =~= Seq::<(i64, Seq<char>, Seq<char>)>::empty());
            assert(turns_view(d.turns@) =~= Seq::<(i64, i64, Seq<char>)>::empty());
        }
        d
    }

    /// The canonical (first, second) ordering for an unordered name pair.
    /// The first query for a pair fixes the order for good; both orderings
    /// are cached pointing at the same canonical pair.
    #[verifier::loop_isolation(false)]
    pub fn get_matchup_order(&mut self, player_a: &String, player_b: &String) -> (r: (
        String,
        String,
    ))
        requires
            old(self).inv(),
        ensures
            final(self).inv(),
            final(self).spec_cache() == cache_insert(
                old(self).spec_cache(),
                player_a@,
                player_b@,
            ),
            r.0@ == matchup_order_of(old(self).spec_cache(), player_a@, player_b@).0,
            r.1@ == matchup_order_of(old(self).spec_cache(), player_a@, player_b@).1,
            final(self).spec_matchups() == old(self).spec_matchups(),
            final(self).spec_games() == old(self).spec_games(),
            final(self).spec_turns() == old(self).spec_turns(),
            final(self).spec_next_id() == old(self).spec_next_id(),
    {
        let ghost c = self.spec_cache();
        proof {
            assert(c.take(c.len() as int) =~= c);
        }
        let mut i: usize = self.cache.len();
        while i > 0
            invariant
                0 <= i <= self.cache@.len(),
                c == self.spec_cache(),
                self == old(self),
                cache_lookup(c, player_a@, player_b@) == cache_lookup(
                    c.take(i as int),
                    player_a@,
                    player_b@,
                ),
            decreases i,
        {
            i = i - 1;
            proof {
                assert(c.take(i + 1).drop_last() =~= c.take(i as int));
                assert(c.take(i + 1).last() == c[i as int]);
                assert(c[i as int] == cache_view(self.cache@[i as int]));
            }
            let hit = self.cache[i].key_a == *player_a && self.cache[i].key_b == *player_b;
            if hit {
                let first = self.cache[i].first.clone();
                let second = self.cache[i].second.clone();
                proof {
                    assert(cache_lookup(c, player_a@, player_b@) == Some((first@, second@)));
                }
                return (first, second);
            }
        }
        proof {
            assert(c.take(0) =~= Seq::<(Seq<char>, Seq<char>, Seq<char>, Seq<char>)>::empty());
            assert(cache_lookup(c, player_a@, player_b@) is None);
        }
        let ghost pre = self.cache@;
        let e1 = CacheEntry {
            key_a: player_a.clone(),
            key_b: player_b.clone(),
            first: player_a.clone(),
            second: player_b.clone(),
        };
        self.cache.push(e1);
        let ghost mid = self.cache@;
        let e2 = CacheEntry {
            key_a: player_b.clone(),
            key_b: player_a.clone(),
            first: player_a.clone(),
            second: player_b.clone(),
        };
        self.cache.push(e2);
        proof {
            assert(caches_view(mid) =~= caches_view(pre).push(
                (player_a@, player_b@, player_a@, player_b@),
            ));
            assert(self.spec_cache() =~= caches_view(mid).push(
                (player_b@, player_a@, player_a@, player_b@),
            ));
            assert(self.spec_cache() == cache_insert(c, player_a@, player_b@));
            lemma_cache_insert_sym(c, player_a@, player_b@);
        }
        (player_a.clone(), player_b.clone())
    }

    /// Idempotent get-or-create of the matchup row for a pair, keyed by
    /// the canonical name order; concurrent callers for the same pair
    /// converge on one row.
    #[verifier::loop_isolation(false)]
    pub fn start_matchup(&mut self, player_a: &String, player_b: &String) -> (r: Result<
        i64,
        DbError,
    >)
        requires
            old(self).inv(),
        ensures
            final(self).inv(),
            final(self).spec_cache() == cache_insert(
                old(self).spec_cache(),
                player_a@,
                player_b@,
            ),
            final(self).spec_games() == old(self).spec_games(),
            final(self).spec_turns() == old(self).spec_turns(),
            ({
                let key = matchup_order_of(old(self).spec_cache(), player_a@, player_b@);
                match find_matchup(old(self).spec_matchups(), key.0, key.1) {
                    Some(row) => {
                        &&& r == Ok::<i64, DbError>(row.0)
                        &&& final(self).spec_matchups() == old(self).spec_matchups()
                        &&& final(self).spec_next_id() == old(self).spec_next_id()
                    },
                    None => {
                        if old(self).spec_next_id() == i64::MAX {
                            r == Err::<i64, DbError>(DbError::IdSpaceExhausted)
                        } else {
                            &&& r == Ok::<i64, DbError>(old(self).spec_next_id())
                            &&& final(self).spec_matchups() == old(self).spec_matchups().push(
                                (old(self).spec_next_id(), key.0, key.1),
                            )
                            &&& final(self).spec_next_id() == old(self).spec_next_id() + 1
                        }
                    },
                }
            }),
    {
        let (first, second) = self.get_matchup_order(player_a, player_b);
        let ghost snap = *self;
        let ghost ms = self.spec_matchups();
        proof {
            assert(ms.take(ms.len() as int) =~= ms);
        }
        let mut i: usize = self.matchups.len();
        while i > 0
            invariant
                0 <= i <= self.matchups@.len(),
                ms == self.spec_matchups(),
                *self == snap,
                find_matchup(ms, first@, second@) == find_matchup(
                    ms.take(i as int),
                    first@,
                    second@,
                ),
            decreases i,
        {
            i = i - 1;
            proof {
                assert(ms.take(i + 1).drop_last() =~= ms.take(i as int));
                assert(ms.take(i + 1).last() == ms[i as int]);
                assert(ms[i as int] == matchup_view(self.matchups@[i as int]));
            }
            let hit = self.matchups[i].player_a == first && self.matchups[i].player_b == second;
            if hit {
                let id = self.matchups[i].id;
                proof {
                    assert(find_matchup(ms, first@, second@) == Some(ms[i as int]));
                }
                return Ok(id);
            }
        }
        proof {
            assert(ms.take(0) =~= Seq::<(i64, Seq<char>, Seq<char>)>::empty());
            assert(find_matchup(ms, first@, second@) is None);
            lemma_find_matchup_none(ms, first@, second@);
        }
        if self.next_id == i64::MAX {
            return Err(DbError::IdSpaceExhausted);
        }
        let id = self.next_id;
        let ghost pre = self.matchups@;
        let ghost fv = first@;
        let ghost sv = second@;
        self.matchups.push(MatchupRow { id, player_a: first, player_b: second });
        self.next_id = id + 1;
        proof {
            assert(self.spec_matchups() =~= matchups_view(pre).push((id, fv, sv)));
            lemma_matchups_push(ms, fv, sv, id, id as int);
        }
        Ok(id)
    }

    /// Idempotent get-or-create of a game row, keyed by (matchup, game
    /// number): an existing row's id is returned instead of an error, so
    /// re-invocation after partial failure is safe.
    #[verifier::loop_isolation(false)]
    pub fn create_game(&mut self, matchup_id: i64, game_number: i64, seed: i64) -> (r: Result<
        i64,
        DbError,
    >)
        requires
            old(self).inv(),
        ensures
            final(self).inv(),
            final(self).spec_cache() == old(self).spec_cache(),
            final(self).spec_matchups() == old(self).spec_matchups(),
            final(self).spec_turns() == old(self).spec_turns(),
            r is Err <==> (find_game(old(self).spec_games(), matchup_id, game_number) is None && old(
                self,
            ).spec_next_id() == i64::MAX),
            r is Ok ==> {
                &&& final(self).spec_games() == spec_create_game(
                    old(self).spec_games(),
                    matchup_id,
                    game_number,
                    seed,
                    old(self).spec_next_id(),
                )
                &&& r == Ok::<i64, DbError>(
                    spec_create_game_id(
                        old(self).spec_games(),
                        matchup_id,
                        game_number,
                        old(self).spec_next_id(),
                    ),
                )
            },
            r is Err ==> final(self).spec_games() == old(self).spec_games(),
            r is Err ==> final(self).spec_next_id() == old(self).spec_next_id(),
            r is Ok ==> final(self).spec_next_id() == (
            if find_game(old(self).spec_games(), matchup_id, game_number) is Some {
                old(self).spec_next_id() as int
            } else {
                old(self).spec_next_id() + 1
            }),
    {
        let ghost gs = self.spec_games();
        proof {
            assert(gs.take(gs.len() as int) =~= gs);
        }
        let mut i: usize = self.games.len();
        while i > 0
            invariant
                0 <= i <= self.games@.len(),
                gs == self.spec_games(),
                self == old(self),
                find_game(gs, matchup_id, game_number) == find_game(
                    gs.take(i as int),
                    matchup_id,
                    game_number,
                ),
            decreases i,
        {
            i = i - 1;
            proof {
                assert(gs.take(i + 1).drop_last() =~= gs.take(i as int));
                assert(gs.take(i + 1).last() == gs[i as int]);
            }
            if self.games[i].matchup_id == matchup_id && self.games[i].game_number == game_number {
                let id = self.games[i].id;
                proof {
                    assert(find_game(gs, matchup_id, game_number) == Some(gs[i as int]));
                }
                return Ok(id);
            }
        }
        proof {
            assert(gs.take(0) =~= Seq::<GameRow>::empty());
            assert(find_game(gs, matchup_id, game_number) is None);
            lemma_find_game_none(gs, matchup_id, game_number);
        }
        if self.next_id == i64::MAX {
            return Err(DbError::IdSpaceExhausted);
        }
        let id = self.next_id;
        let row = GameRow { id, matchup_id, game_number, winner: GameWinner::Pending, seed };
        self.games.push(row);
        self.next_id = id + 1;
        proof {
            lemma_games_push(gs, row, id as int);
        }
        Ok(id)
    }

    /// Sets the winner of a game; the last writer wins, and a missing key
    /// changes nothing.
    #[verifier::loop_isolation(false)]
    pub fn update_game_result(&mut self, matchup_id: i64, game_number: i64, result: GameResult)
        requires
            old(self).inv(),
        ensures
            final(self).inv(),
            final(self).spec_cache() == old(self).spec_cache(),
            final(self).spec_matchups() == old(self).spec_matchups(),
            final(self).spec_turns() == old(self).spec_turns(),
            final(self).spec_next_id() == old(self).spec_next_id(),
            final(self).spec_games() == spec_update_winner(
                old(self).spec_games(),
                matchup_id,
                game_number,
                spec_winner_of(result),
            ),
    {
        let winner = match result {
            GameResult::Player1Win => GameWinner::PlayerA,
            GameResult::Player2Win => GameWinner::PlayerB,
            GameResult::Tie => GameWinner::Tie,
        };
        let ghost gs = self.spec_games();
        let ghost w = spec_winner_of(result);
        let mut i: usize = self.games.len();
        while i > 0
            invariant
                0 <= i <= self.games@.len(),
                gs == self.spec_games(),
                self == old(self),
                winner == w,
                forall|j: int|
                    i <= j < gs.len() ==> !((#[trigger] gs[j]).matchup_id == matchup_id
                        && gs[j].game_number == game_number),
            decreases i,
        {
            i = i - 1;
            if self.games[i].matchup_id == matchup_id && self.games[i].game_number == game_number {
                let row = GameRow {
                    id: self.games[i].id,
                    matchup_id: self.games[i].matchup_id,
                    game_number: self.games[i].game_number,
                    winner,
                    seed: self.games[i].seed,
                };
                self.games.set(i, row);
                proof {
                    lemma_update_winner_at(gs, matchup_id, game_number, w, i as int);
                    lemma_update_winner_inv(gs, matchup_id, game_number, w, old(self).spec_next_id() as int);
                }
                return ;
            }
        }
        proof {
            lemma_update_winner_absent(gs, matchup_id, game_number, w);
        }
    }

    /// Idempotent turn recording: a pre-existing row for the same
    /// (game, turn) is success, not an error, and nothing is written.
    #[verifier::loop_isolation(false)]
    pub fn record_turn(&mut self, game_id: i64, turn_number: i64, svg_path: &String)
        requires
            old(self).inv(),
        ensures
            final(self).inv(),
            final(self).spec_cache() == old(self).spec_cache(),
            final(self).spec_matchups() == old(self).spec_matchups(),
            final(self).spec_games() == old(self).spec_games(),
            final(self).spec_next_id() == old(self).spec_next_id(),
            final(self).spec_turns() == spec_record_turn(
                old(self).spec_turns(),
                game_id,
                turn_number,
                svg_path@,
            ),
    {
        let ghost ts = self.spec_turns();
        proof {
            assert(ts.take(ts.len() as int) =~= ts);
        }
        let mut i: usize = self.turns.len();
        while i > 0
            invariant
                0 <= i <= self.turns@.len(),
                ts == self.spec_turns(),
                self == old(self),
                turn_present(ts, game_id, turn_number) == turn_present(
                    ts.take(i as int),
                    game_id,
                    turn_number,
                ),
            decreases i,
        {
            i = i - 1;
            proof {
                assert(ts.take(i + 1).drop_last() =~= ts.take(i as int));
                assert(ts.take(i + 1).last() == ts[i as int]);
                assert(ts[i as int] == turn_view(self.turns@[i as int]));
            }
            if self.turns[i].game_id == game_id && self.turns[i].turn_number == turn_number {
                proof {
                    assert(turn_present(ts, game_id, turn_number));
                }
                return ;
            }
        }
        proof {
            assert(ts.take(0) =~= Seq::<(i64, i64, Seq<char>)>::empty());
            assert(!turn_present(ts, game_id, turn_number));
            lemma_turn_absent(ts, game_id, turn_number);
        }
        let ghost pre = self.turns@;
        self.turns.push(
            TurnRow { game_id, turn_number, svg_path: svg_path.clone() },
        );
        proof {
            assert(self.spec_turns() =~= turns_view(pre).push((game_id, turn_number, svg_path@)));
            lemma_turns_push(ts, game_id, turn_number, svg_path@);
        }
    }

    /// How many turn rows a game has; the idempotence law shows this stays
    /// at one however often the same turn is recorded.
    #[verifier::loop_isolation(false)]
    pub fn turn_row_count(&self, game_id: i64, turn_number: i64) -> (r: usize)
        requires
            self.inv(),
        ensures
            r <= 1,
            (r == 1) == turn_present(self.spec_turns(), game_id, turn_number),
    {
        let ghost ts = self.spec_turns();
        proof {
            assert(ts.take(ts.len() as int) =~= ts);
        }
        let mut i: usize = self.turns.len();
        while i > 0
            invariant
                0 <= i <= self.turns@.len(),
                ts == self.spec_turns(),
                self.inv(),
                turn_present(ts, game_id, turn_number) == turn_present(
                    ts.take(i as int),
                    game_id,
                    turn_number,
                ),
            decreases i,
        {
            i = i - 1;
            proof {
                assert(ts.take(i + 1).drop_last() =~= ts.take(i as int));
                assert(ts.take(i + 1).last() == ts[i as int]);
                assert(ts[i as int] == turn_view(self.turns@[i as int]));
            }
            if self.turns[i].game_id == game_id && self.turns[i].turn_number == turn_number {
                proof {
                    assert(turn_present(ts, game_id, turn_number));
                }
                return 1;
            }
        }
        proof {
            assert(ts.take(0) =~= Seq::<(i64, i64, Seq<char>)>::empty());
        }
        0
    }

    /// How many matchup rows exist.
    pub fn matchups_len(&self) -> (r: usize)
        ensures
            r == self.spec_matchups().len(),
    {
        self.matchups.len()
    }

    /// How many game rows exist.
    pub fn games_len(&self) -> (r: usize)
        ensures
            r == self.spec_games().len(),
    {
        self.games.len()
    }

    /// How many turn rows exist.
    pub fn turns_len(&self) -> (r: usize)
        ensures
            r == self.spec_turns().len(),
    {
        self.turns.len()
    }

    /// The winner column of the game row for a key, if the row exists.
    #[verifier::loop_isolation(false)]
    pub fn game_winner(&self, matchup_id: i64, game_number: i64) -> (r: Option<GameWinner>)
        requires
            self.inv(),
        ensures
            r == (match find_game(self.spec_games(), matchup_id, game_number) {
                Some(row) => Some(row.winner),
                None => None::<GameWinner>,
            }),
    {
        let ghost gs = self.spec_games();
        proof {
            assert(gs.take(gs.len() as int) =~= gs);
        }
        let mut i: usize = self.games.len();
        while i > 0
            invariant
                0 <= i <= self.games@.len(),
                find_game(gs, matchup_id, game_number) == find_game(
                    gs.take(i as int),
                    matchup_id,
                    game_number,
                ),
            decreases i,
        {
            i = i - 1;
            proof {
                assert(gs.take(i + 1).drop_last() =~= gs.take(i as int));
                assert(gs.take(i + 1).last() == gs[i as int]);
            }
            if self.games[i].matchup_id == matchup_id && self.games[i].game_number == game_number {
                proof {
                    assert(find_game(gs, matchup_id, game_number) == Some(gs[i as int]));
                }
                return Some(self.games[i].winner);
            }
        }
        proof {
            assert(gs.take(0) =~= Seq::<GameRow>::empty());
        }
        None
    }
}

} // verus!
