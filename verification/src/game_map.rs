//! The game board: a directed multigraph over typed nodes.
//!
//! Nodes are addressed by stable integer index into an arena of node types;
//! edges are a list of ordered pairs with multiset semantics. Between two
//! distinct nodes at most one edge per direction exists; a node may carry up
//! to two self-loop edges. A node's degree is the larger of its out- and
//! in-degree, discounting paired self-loops.

use vstd::prelude::*;
use crate::rng::{rng_below, rng_shuffle};

verus! {

/// Smallest degree the generator must give every node.
pub const MIN_DEGREE: usize = 3;

/// Largest degree the generator may leave any node with.
pub const MAX_DEGREE: usize = 4;

/// How many repair iterations the generator will attempt before giving up.
pub const REPAIR_BUDGET: u64 = 10000;

#[derive(Clone, Copy, PartialEq, Eq, Structural, Debug)]
pub enum MapNodeType {
    Normal,
    Healing,
    Gamble,
    Teleport,
}

/// One directed edge of the board.
#[derive(Clone, Copy, PartialEq, Eq, Structural, Debug)]
pub struct MapEdge {
    pub from: usize,
    pub to: usize,
}

/// Raised when the generator cannot repair the graph's degrees.
#[derive(Clone, Copy, PartialEq, Eq, Structural, Debug)]
pub enum MapGenerationError {
    /// No node remained a valid target for a deficient node.
    NoValidTarget,
    /// A node at maximum degree had no outgoing edge to evict.
    NoOutgoingEdge,
    /// The repair loop exceeded its iteration budget.
    RepairLimit,
}

/// How many edges of `es` leave node `v`.
pub open spec fn out_count(es: Seq<MapEdge>, v: int) -> nat
    decreases es.len(),
{
    if es.len() == 0 {
        0
    } else {
        out_count(es.drop_last(), v) + (if es.last().from == v {
            1nat
        } else {
            0nat
        })
    }
}

/// How many edges of `es` enter node `v`.
pub open spec fn in_count(es: Seq<MapEdge>, v: int) -> nat
    decreases es.len(),
{
    if es.len() == 0 {
        0
    } else {
        in_count(es.drop_last(), v) + (if es.last().to == v {
            1nat
        } else {
            0nat
        })
    }
}

/// How many copies of the edge `a -> b` are in `es`.
pub open spec fn pair_count(es: Seq<MapEdge>, a: int, b: int) -> nat
    decreases es.len(),
{
    if es.len() == 0 {
        0
    } else {
        pair_count(es.drop_last(), a, b) + (if es.last().from == a && es.last().to == b {
            1nat
        } else {
            0nat
        })
    }
}

/// The targets of the outgoing edges of `v`, in edge order, one entry per
/// edge.
pub open spec fn out_targets(es: Seq<MapEdge>, v: int) -> Seq<usize>
    decreases es.len(),
{
    if es.len() == 0 {
        Seq::empty()
    } else if es.last().from == v {
        out_targets(es.drop_last(), v).push(es.last().to)
    } else {
        out_targets(es.drop_last(), v)
    }
}

/// One list entry per outgoing edge.
pub proof fn lemma_out_targets_len(es: Seq<MapEdge>, v: int)
    ensures
        out_targets(es, v).len() == out_count(es, v),
    decreases es.len(),
{
    if es.len() > 0 {
        lemma_out_targets_len(es.drop_last(), v);
    }
}

/// The predicate an available move must meet: no blocked position holds
/// the target. Named so that every contract speaks of one closure.
pub open spec fn unblocked(blocked: Seq<usize>) -> spec_fn(usize) -> bool {
    |t: usize| !blocked.contains(t)
}

/// A node's degree: the larger of out- and in-degree, with paired
/// self-loops discounted.
pub open spec fn spec_degree(es: Seq<MapEdge>, v: int) -> int {
    vstd::math::max(out_count(es, v) as int, in_count(es, v) as int) - pair_count(es, v, v) / 2
}

pub proof fn lemma_count_push(es: Seq<MapEdge>, e: MapEdge)
    ensures
        forall|v: int| out_count(es.push(e), v) == out_count(es, v) + (if e.from == v {
            1nat
        } else {
            0nat
        }),
        forall|v: int| in_count(es.push(e), v) == in_count(es, v) + (if e.to == v {
            1nat
        } else {
            0nat
        }),
        forall|a: int, b: int| pair_count(es.push(e), a, b) == pair_count(es, a, b) + (
        if e.from == a && e.to == b {
            1nat
        } else {
            0nat
        }),
{
    assert(es.push(e).drop_last() =~= es);
    assert(es.push(e).last() == e);
}

/// Self-loops at `v` are counted by both the out- and the in-degree.
pub proof fn lemma_loops_within_counts(es: Seq<MapEdge>, v: int)
    ensures
        pair_count(es, v, v) <= out_count(es, v),
        pair_count(es, v, v) <= in_count(es, v),
    decreases es.len(),
{
    if es.len() > 0 {
        lemma_loops_within_counts(es.drop_last(), v);
    }
}

pub proof fn lemma_counts_within_len(es: Seq<MapEdge>, v: int)
    ensures
        out_count(es, v) <= es.len(),
        in_count(es, v) <= es.len(),
    decreases es.len(),
{
    if es.len() > 0 {
        lemma_counts_within_len(es.drop_last(), v);
    }
}

/// `es` with every copy of the edge `a -> b` removed.
pub open spec fn remove_pair_spec(es: Seq<MapEdge>, a: int, b: int) -> Seq<MapEdge>
    decreases es.len(),
{
    if es.len() == 0 {
        es
    } else {
        let rest = remove_pair_spec(es.drop_last(), a, b);
        if es.last().from == a && es.last().to == b {
            rest
        } else {
            rest.push(es.last())
        }
    }
}

pub proof fn lemma_remove_pair_count_at(es: Seq<MapEdge>, a: int, b: int, v: int)
    ensures
        out_count(remove_pair_spec(es, a, b), v) as int == out_count(es, v) as int - (if v == a {
            pair_count(es, a, b) as int
        } else {
            0
        }),
        in_count(remove_pair_spec(es, a, b), v) as int == in_count(es, v) as int - (if v == b {
            pair_count(es, a, b) as int
        } else {
            0
        }),
    decreases es.len(),
{
    if es.len() > 0 {
        lemma_remove_pair_count_at(es.drop_last(), a, b, v);
        let e = es.last();
        if !(e.from == a && e.to == b) {
            lemma_count_push(remove_pair_spec(es.drop_last(), a, b), e);
        }
    }
}

pub proof fn lemma_remove_pair_pair_at(es: Seq<MapEdge>, a: int, b: int, c: int, d: int)
    ensures
        pair_count(remove_pair_spec(es, a, b), c, d) == (if c == a && d == b {
            0nat
        } else {
            pair_count(es, c, d)
        }),
    decreases es.len(),
{
    if es.len() > 0 {
        lemma_remove_pair_pair_at(es.drop_last(), a, b, c, d);
        let e = es.last();
        if !(e.from == a && e.to == b) {
            lemma_count_push(remove_pair_spec(es.drop_last(), a, b), e);
        }
    }
}

pub proof fn lemma_remove_pair_counts(es: Seq<MapEdge>, a: int, b: int)
    ensures
        forall|v: int|
            #[trigger] out_count(remove_pair_spec(es, a, b), v) as int == out_count(es, v) as int
                - (if v == a {
                pair_count(es, a, b) as int
            } else {
                0
            }),
        forall|v: int|
            #[trigger] in_count(remove_pair_spec(es, a, b), v) as int == in_count(es, v) as int - (
            if v == b {
                pair_count(es, a, b) as int
            } else {
                0
            }),
        forall|c: int, d: int|
            #[trigger] pair_count(remove_pair_spec(es, a, b), c, d) == (if c == a && d == b {
                0nat
            } else {
                pair_count(es, c, d)
            }),
{
    assert forall|v: int|
        #[trigger] out_count(remove_pair_spec(es, a, b), v) as int == out_count(es, v) as int - (
        if v == a {
            pair_count(es, a, b) as int
        } else {
            0
        }) by {
        lemma_remove_pair_count_at(es, a, b, v);
    }
    assert forall|v: int|
        #[trigger] in_count(remove_pair_spec(es, a, b), v) as int == in_count(es, v) as int - (
        if v == b {
            pair_count(es, a, b) as int
        } else {
            0
        }) by {
        lemma_remove_pair_count_at(es, a, b, v);
    }
    assert forall|c: int, d: int|
        #[trigger] pair_count(remove_pair_spec(es, a, b), c, d) == (if c == a && d == b {
            0nat
        } else {
            pair_count(es, c, d)
        }) by {
        lemma_remove_pair_pair_at(es, a, b, c, d);
    }
}

/// Removing the edges between two distinct nodes never raises any degree.
pub proof fn lemma_remove_distinct_keeps_caps(es: Seq<MapEdge>, a: int, b: int, n: nat)
    requires
        a != b,
        degrees_capped(es, n),
    ensures
        degrees_capped(remove_pair_spec(es, a, b), n),
        forall|v: int|
            0 <= v < n ==> #[trigger] spec_degree(remove_pair_spec(es, a, b), v) <= spec_degree(
                es,
                v,
            ),
{
    let r = remove_pair_spec(es, a, b);
    assert forall|v: int| 0 <= v < n implies #[trigger] spec_degree(r, v) <= spec_degree(
        es,
        v,
    ) by {
        lemma_remove_pair_count_at(es, a, b, v);
        lemma_remove_pair_pair_at(es, a, b, v, v);
    }
}

/// Removing a node's self-loops brings its degree strictly below the
/// maximum and never raises any other degree.
pub proof fn lemma_remove_loops_keeps_caps(es: Seq<MapEdge>, t: int, n: nat)
    requires
        0 <= t < n,
        degrees_capped(es, n),
        pair_count(es, t, t) >= 1,
        pair_count(es, t, t) <= 2,
    ensures
        degrees_capped(remove_pair_spec(es, t, t), n),
        spec_degree(remove_pair_spec(es, t, t), t) < MAX_DEGREE,
{
    let r = remove_pair_spec(es, t, t);
    lemma_loops_within_counts(es, t);
    lemma_remove_pair_count_at(es, t, t, t);
    lemma_remove_pair_pair_at(es, t, t, t, t);
    let l = pair_count(es, t, t) as int;
    assert(l == 1 || l == 2);
    assert(out_count(r, t) as int == out_count(es, t) as int - l);
    assert(in_count(r, t) as int == in_count(es, t) as int - l);
    assert(pair_count(r, t, t) == 0);
    assert(spec_degree(es, t) <= MAX_DEGREE);
    assert(l == 1 ==> l / 2 == 0);
    assert(l == 2 ==> l / 2 == 1);
    assert(spec_degree(r, t) < MAX_DEGREE);
    assert forall|v: int| 0 <= v < n && v != t implies #[trigger] spec_degree(r, v)
        <= MAX_DEGREE by {
        lemma_remove_pair_count_at(es, t, t, v);
        lemma_remove_pair_pair_at(es, t, t, v, v);
        assert(spec_degree(es, v) <= MAX_DEGREE);
    }
}

/// A property of every edge survives the removal of a pair.
pub proof fn lemma_remove_pair_preserves(
    es: Seq<MapEdge>,
    a: int,
    b: int,
    p: spec_fn(MapEdge) -> bool,
)
    requires
        forall|i: int| 0 <= i < es.len() ==> p(#[trigger] es[i]),
    ensures
        forall|i: int|
            0 <= i < remove_pair_spec(es, a, b).len() ==> p(
                #[trigger] remove_pair_spec(es, a, b)[i],
            ),
    decreases es.len(),
{
    if es.len() > 0 {
        assert(forall|i: int| 0 <= i < es.drop_last().len() ==> p(#[trigger] es.drop_last()[i]));
        lemma_remove_pair_preserves(es.drop_last(), a, b, p);
        let rest = remove_pair_spec(es.drop_last(), a, b);
        let e = es.last();
        if !(e.from == a && e.to == b) {
            assert(p(e));
            assert forall|i: int| 0 <= i < rest.push(e).len() implies p(
                #[trigger] rest.push(e)[i],
            ) by {
                if i < rest.len() {
                    assert(rest.push(e)[i] == rest[i]);
                } else {
                    assert(rest.push(e)[i] == e);
                }
            }
        }
    }
}

/// How many nodes of `ts` carry the type `t`.
pub open spec fn type_count(ts: Seq<MapNodeType>, t: MapNodeType) -> nat
    decreases ts.len(),
{
    if ts.len() == 0 {
        0
    } else {
        type_count(ts.drop_last(), t) + (if ts.last() == t {
            1nat
        } else {
            0nat
        })
    }
}

pub proof fn lemma_type_count_push(ts: Seq<MapNodeType>, x: MapNodeType)
    ensures
        forall|t: MapNodeType| type_count(ts.push(x), t) == type_count(ts, t) + (if x == t {
            1nat
        } else {
            0nat
        }),
{
    assert(ts.push(x).drop_last() =~= ts);
}

/// At most `blocked.len()` node indices are blocked.
proof fn lemma_blocked_index_card(blocked: Seq<usize>, n: int)
    requires
        0 <= n <= usize::MAX,
    ensures
        Set::new(|t: int| 0 <= t < n && blocked.contains(t as usize)).len() <= blocked.len(),
        Set::new(|t: int| 0 <= t < n && blocked.contains(t as usize)).finite(),
    decreases blocked.len(),
{
    let s = Set::new(|t: int| 0 <= t < n && blocked.contains(t as usize));
    vstd::set_lib::lemma_int_range(0, n);
    vstd::set_lib::lemma_len_subset(s, vstd::set_lib::set_int_range(0, n));
    if blocked.len() > 0 {
        lemma_blocked_index_card(blocked.drop_last(), n);
        let rest = Set::new(
            |t: int| 0 <= t < n && blocked.drop_last().contains(t as usize),
        );
        assert forall|t: int| s.contains(t) implies rest.insert(blocked.last() as int).contains(
            t,
        ) by {
            assert(blocked.contains(t as usize));
            let j = choose|j: int| 0 <= j < blocked.len() && blocked[j] == t as usize;
            if j < blocked.len() - 1 {
                assert(blocked.drop_last()[j] == t as usize);
                assert(blocked.drop_last().contains(t as usize));
                assert(rest.contains(t));
            } else {
                assert(blocked[j] == blocked.last());
                assert(t == blocked.last() as int);
            }
        }
        vstd::set_lib::lemma_len_subset(s, rest.insert(blocked.last() as int));
    } else {
        assert(s =~= Set::<int>::empty());
    }
}

/// At most `type_count(ts, ty)` node indices carry the type `ty`.
proof fn lemma_type_index_card(ts: Seq<MapNodeType>, ty: MapNodeType)
    ensures
        Set::new(|t: int| 0 <= t < ts.len() && ts[t] == ty).len() <= type_count(ts, ty),
        Set::new(|t: int| 0 <= t < ts.len() && ts[t] == ty).finite(),
    decreases ts.len(),
{
    let n = ts.len() as int;
    let s = Set::new(|t: int| 0 <= t < n && ts[t] == ty);
    vstd::set_lib::lemma_int_range(0, n);
    vstd::set_lib::lemma_len_subset(s, vstd::set_lib::set_int_range(0, n));
    if ts.len() > 0 {
        lemma_type_index_card(ts.drop_last(), ty);
        let rest = Set::new(
            |t: int| 0 <= t < ts.drop_last().len() && ts.drop_last()[t] == ty,
        );
        assert forall|t: int| s.contains(t) implies rest.insert(n - 1).contains(t) by {
            if t < n - 1 {
                assert(ts.drop_last()[t] == ts[t]);
                assert(rest.contains(t));
            }
        }
        vstd::set_lib::lemma_len_subset(s, rest.insert(n - 1));
        assert(type_count(ts, ty) == type_count(ts.drop_last(), ty) + (if ts.last() == ty {
            1int
        } else {
            0int
        }));
        if ts.last() == ty {
            assert(s.len() <= rest.len() + 1);
        } else {
            assert forall|t: int| s.contains(t) implies rest.contains(t) by {
                if t < n - 1 {
                    assert(ts.drop_last()[t] == ts[t]);
                }
            }
            vstd::set_lib::lemma_len_subset(s, rest);
        }
    } else {
        assert(s =~= Set::<int>::empty());
    }
}

/// When the nodes outnumber the blocked positions and the Teleport nodes
/// together, some free non-Teleport node exists.
pub proof fn lemma_empty_node_exists(types: Seq<MapNodeType>, blocked: Seq<usize>)
    requires
        types.len() <= usize::MAX,
        types.len() > blocked.len() + type_count(types, MapNodeType::Teleport),
    ensures
        exists|t: int|
            0 <= t < types.len() && !blocked.contains(t as usize) && types[t]
                != MapNodeType::Teleport,
{
    let n = types.len() as int;
    let blocked_set = Set::new(|t: int| 0 <= t < n && blocked.contains(t as usize));
    let tele_set = Set::new(|t: int| 0 <= t < n && types[t] == MapNodeType::Teleport);
    lemma_blocked_index_card(blocked, n);
    lemma_type_index_card(types, MapNodeType::Teleport);
    vstd::set_lib::lemma_len_union(blocked_set, tele_set);
    vstd::set_lib::lemma_int_range(0, n);
    if !(exists|t: int|
        0 <= t < n && !blocked.contains(t as usize) && types[t] != MapNodeType::Teleport) {
        assert forall|t: int|
            vstd::set_lib::set_int_range(0, n).contains(t) implies blocked_set.union(
            tele_set,
        ).contains(t) by {
            assert(blocked.contains(t as usize) || types[t] == MapNodeType::Teleport);
        }
        vstd::set_lib::lemma_len_subset(
            vstd::set_lib::set_int_range(0, n),
            blocked_set.union(tele_set),
        );
    }
}

/// Every edge endpoint in `es` names one of `n` nodes.
pub open spec fn edges_in_range_of(es: Seq<MapEdge>, n: nat) -> bool {
    forall|i: int| 0 <= i < es.len() ==> (#[trigger] es[i]).from < n && es[i].to < n
}

/// No duplicate edge between distinct nodes; at most two self-loops per node.
pub open spec fn pair_caps(es: Seq<MapEdge>, n: nat) -> bool {
    &&& forall|a: int, b: int|
        0 <= a < n && 0 <= b < n && a != b ==> #[trigger] pair_count(es, a, b) <= 1
    &&& forall|v: int| 0 <= v < n ==> #[trigger] pair_count(es, v, v) <= 2
}

/// Every node's degree is at most `MAX_DEGREE`.
pub open spec fn degrees_capped(es: Seq<MapEdge>, n: nat) -> bool {
    forall|v: int| 0 <= v < n ==> #[trigger] spec_degree(es, v) <= MAX_DEGREE
}

/// Every node's degree is at least `MIN_DEGREE`.
pub open spec fn degrees_met(es: Seq<MapEdge>, n: nat) -> bool {
    forall|v: int| 0 <= v < n ==> #[trigger] spec_degree(es, v) >= MIN_DEGREE
}

fn count_pair_in(edges: &Vec<MapEdge>, a: usize, b: usize) -> (r: usize)
    ensures
        r == pair_count(edges@, a as int, b as int),
{
    let mut c: usize = 0;
    let mut i: usize = 0;
    while i < edges.len()
        invariant
            0 <= i <= edges@.len(),
            c == pair_count(edges@.subrange(0, i as int), a as int, b as int),
        decreases edges@.len() - i,
    {
        proof {
            assert(edges@.subrange(0, i + 1) =~= edges@.subrange(0, i as int).push(
                edges@[i as int],
            ));
            lemma_count_push(edges@.subrange(0, i as int), edges@[i as int]);
            lemma_pair_count_within_len(edges@.subrange(0, i as int), a as int, b as int);
        }
        if edges[i].from == a && edges[i].to == b {
            c += 1;
        }
        i += 1;
    }
    proof {
        assert(edges@.subrange(0, edges@.len() as int) =~= edges@);
    }
    c
}

fn count_out_in(edges: &Vec<MapEdge>, v: usize) -> (r: usize)
    ensures
        r == out_count(edges@, v as int),
{
    let mut c: usize = 0;
    let mut i: usize = 0;
    while i < edges.len()
        invariant
            0 <= i <= edges@.len(),
            c == out_count(edges@.subrange(0, i as int), v as int),
        decreases edges@.len() - i,
    {
        proof {
            assert(edges@.subrange(0, i + 1) =~= edges@.subrange(0, i as int).push(
                edges@[i as int],
            ));
            lemma_count_push(edges@.subrange(0, i as int), edges@[i as int]);
            lemma_counts_within_len(edges@.subrange(0, i as int), v as int);
        }
        if edges[i].from == v {
            c += 1;
        }
        i += 1;
    }
    proof {
        assert(edges@.subrange(0, edges@.len() as int) =~= edges@);
    }
    c
}

fn count_in_in(edges: &Vec<MapEdge>, v: usize) -> (r: usize)
    ensures
        r == in_count(edges@, v as int),
{
    let mut c: usize = 0;
    let mut i: usize = 0;
    while i < edges.len()
        invariant
            0 <= i <= edges@.len(),
            c == in_count(edges@.subrange(0, i as int), v as int),
        decreases edges@.len() - i,
    {
        proof {
            assert(edges@.subrange(0, i + 1) =~= edges@.subrange(0, i as int).push(
                edges@[i as int],
            ));
            lemma_count_push(edges@.subrange(0, i as int), edges@[i as int]);
            lemma_counts_within_len(edges@.subrange(0, i as int), v as int);
        }
        if edges[i].to == v {
            c += 1;
        }
        i += 1;
    }
    proof {
        assert(edges@.subrange(0, edges@.len() as int) =~= edges@);
    }
    c
}

fn degree_in(edges: &Vec<MapEdge>, v: usize) -> (r: usize)
    ensures
        r == spec_degree(edges@, v as int),
{
    let outgoing = count_out_in(edges, v);
    let incoming = count_in_in(edges, v);
    let loops = count_pair_in(edges, v, v);
    proof {
        lemma_loops_within_counts(edges@, v as int);
    }
    let bigger = if outgoing >= incoming {
        outgoing
    } else {
        incoming
    };
    bigger - loops / 2
}

/// Removes every copy of the edge `a -> b`.
fn remove_pair_exec(edges: &mut Vec<MapEdge>, a: usize, b: usize)
    ensures
        final(edges)@ == remove_pair_spec(old(edges)@, a as int, b as int),
{
    let ghost orig = edges@;
    let mut kept: Vec<MapEdge> = Vec::new();
    let mut i: usize = 0;
    while i < edges.len()
        invariant
            0 <= i <= edges@.len(),
            edges@ == orig,
            kept@ == remove_pair_spec(orig.subrange(0, i as int), a as int, b as int),
        decreases edges@.len() - i,
    {
        let e = edges[i];
        proof {
            assert(orig.subrange(0, i + 1).drop_last() =~= orig.subrange(0, i as int));
            assert(orig.subrange(0, i + 1).last() == orig[i as int]);
        }
        if !(e.from == a && e.to == b) {
            kept.push(e);
        }
        i += 1;
    }
    proof {
        assert(orig.subrange(0, orig.len() as int) =~= orig);
    }
    *edges = kept;
}

/// The lowest node index still below the minimum degree, if any.
fn find_low_degree(edges: &Vec<MapEdge>, n: usize) -> (r: Option<usize>)
    ensures
        r is Some ==> r->0 < n && spec_degree(edges@, r->0 as int) < MIN_DEGREE,
        r is None ==> degrees_met(edges@, n as nat),
{
    let mut v: usize = 0;
    while v < n
        invariant
            0 <= v <= n,
            forall|w: int| 0 <= w < v ==> #[trigger] spec_degree(edges@, w) >= MIN_DEGREE,
        decreases n - v,
    {
        if degree_in(edges, v) < MIN_DEGREE {
            return Some(v);
        }
        v += 1;
    }
    None
}

/// All valid targets for a new edge out of `node`: nodes with no edge to or
/// from `node` yet (for `node` itself: no self-loop yet).
fn collect_targets(edges: &Vec<MapEdge>, n: usize, node: usize) -> (r: Vec<usize>)
    ensures
        forall|k: int|
            0 <= k < r@.len() ==> {
                &&& (#[trigger] r@[k]) < n
                &&& pair_count(edges@, node as int, r@[k] as int) == 0
                &&& pair_count(edges@, r@[k] as int, node as int) == 0
            },
        forall|t: int|
            0 <= t < n && pair_count(edges@, node as int, t) == 0 && pair_count(
                edges@,
                t,
                node as int,
            ) == 0 ==> r@.contains(t as usize),
{
    let mut out: Vec<usize> = Vec::new();
    let mut t: usize = 0;
    while t < n
        invariant
            0 <= t <= n,
            forall|k: int|
                0 <= k < out@.len() ==> {
                    &&& (#[trigger] out@[k]) < n
                    &&& pair_count(edges@, node as int, out@[k] as int) == 0
                    &&& pair_count(edges@, out@[k] as int, node as int) == 0
                },
            forall|u: int|
                0 <= u < t && pair_count(edges@, node as int, u) == 0 && pair_count(
                    edges@,
                    u,
                    node as int,
                ) == 0 ==> out@.contains(u as usize),
        decreases n - t,
    {
        let ghost pre = out@;
        if count_pair_in(edges, node, t) == 0 && count_pair_in(edges, t, node) == 0 {
            out.push(t);
            proof {
                assert(out@ == pre.push(t));
                assert forall|u: usize| pre.contains(u) implies out@.contains(u) by {
                    let j = choose|j: int| 0 <= j < pre.len() && pre[j] == u;
                    assert(out@[j] == u);
                }
                assert(out@[out@.len() - 1] == t);
                assert(out@.contains(t));
            }
        }
        t += 1;
    }
    out
}

/// True when `v` holds `x`.
fn contains_usize(v: &Vec<usize>, x: usize) -> (r: bool)
    ensures
        r == v@.contains(x),
{
    let mut i: usize = 0;
    while i < v.len()
        invariant
            0 <= i <= v@.len(),
            forall|j: int| 0 <= j < i ==> v@[j] != x,
        decreases v@.len() - i,
    {
        if v[i] == x {
            return true;
        }
        i += 1;
    }
    false
}

/// The target of some outgoing edge of `v`, if one exists.
fn find_out_neighbor(edges: &Vec<MapEdge>, n: usize, v: usize) -> (r: Option<usize>)
    requires
        edges_in_range_of(edges@, n as nat),
    ensures
        r is Some ==> r->0 < n && pair_count(edges@, v as int, r->0 as int) > 0,
        r is None ==> out_count(edges@, v as int) == 0,
{
    let mut i: usize = 0;
    while i < edges.len()
        invariant
            0 <= i <= edges@.len(),
            out_count(edges@.subrange(0, i as int), v as int) == 0,
            edges_in_range_of(edges@, n as nat),
        decreases edges@.len() - i,
    {
        proof {
            assert(edges@.subrange(0, i + 1) =~= edges@.subrange(0, i as int).push(
                edges@[i as int],
            ));
            lemma_count_push(edges@.subrange(0, i as int), edges@[i as int]);
        }
        if edges[i].from == v {
            proof {
                lemma_pair_count_present(edges@, i as int);
            }
            return Some(edges[i].to);
        }
        i += 1;
    }
    proof {
        assert(edges@.subrange(0, edges@.len() as int) =~= edges@);
    }
    None
}

/// Evicts edges at `target` until its degree is below `MAX_DEGREE`,
/// removing its self-loops first, else a first outgoing edge together with
/// the reverse edge if present.
fn make_room(edges: &mut Vec<MapEdge>, n: usize, node: usize, target: usize) -> (r: Result<
    (),
    MapGenerationError,
>)
    requires
        node < n,
        target < n,
        edges_in_range_of(old(edges)@, n as nat),
        pair_caps(old(edges)@, n as nat),
        degrees_capped(old(edges)@, n as nat),
        pair_count(old(edges)@, node as int, target as int) == 0,
        pair_count(old(edges)@, target as int, node as int) == 0,
        spec_degree(old(edges)@, node as int) < MIN_DEGREE,
    ensures
        r is Ok ==> {
            &&& edges_in_range_of(final(edges)@, n as nat)
            &&& pair_caps(final(edges)@, n as nat)
            &&& degrees_capped(final(edges)@, n as nat)
            &&& pair_count(final(edges)@, node as int, target as int) == 0
            &&& pair_count(final(edges)@, target as int, node as int) == 0
            &&& spec_degree(final(edges)@, node as int) < MIN_DEGREE
            &&& spec_degree(final(edges)@, target as int) < MAX_DEGREE
        },
{
    loop
        invariant
            node < n,
            target < n,
            edges_in_range_of(edges@, n as nat),
            pair_caps(edges@, n as nat),
            degrees_capped(edges@, n as nat),
            pair_count(edges@, node as int, target as int) == 0,
            pair_count(edges@, target as int, node as int) == 0,
            spec_degree(edges@, node as int) < MIN_DEGREE,
        ensures
            edges_in_range_of(edges@, n as nat),
            pair_caps(edges@, n as nat),
            degrees_capped(edges@, n as nat),
            pair_count(edges@, node as int, target as int) == 0,
            pair_count(edges@, target as int, node as int) == 0,
            spec_degree(edges@, node as int) < MIN_DEGREE,
            spec_degree(edges@, target as int) < MAX_DEGREE,
        decreases out_count(edges@, target as int),
    {
        let deg_t = degree_in(edges, target);
        if deg_t < MAX_DEGREE {
            break;
        }
        let loops_t = count_pair_in(edges, target, target);
        if loops_t > 0 {
            let ghost pre = edges@;
            remove_pair_exec(edges, target, target);
            proof {
                lemma_remove_pair_counts(pre, target as int, target as int);
                lemma_remove_pair_preserves(
                    pre,
                    target as int,
                    target as int,
                    |e: MapEdge| e.from < n && e.to < n,
                );
                lemma_loops_within_counts(pre, target as int);
                lemma_remove_loops_keeps_caps(pre, target as int, n as nat);
            }
        } else {
            let nb = find_out_neighbor(edges, n, target);
            let o = match nb {
                None => {
                    return Err(MapGenerationError::NoOutgoingEdge);
                },
                Some(w) => w,
            };
            let ghost pre1 = edges@;
            remove_pair_exec(edges, target, o);
            proof {
                assert(o != target);
                lemma_remove_pair_counts(pre1, target as int, o as int);
                lemma_remove_pair_preserves(
                    pre1,
                    target as int,
                    o as int,
                    |e: MapEdge| e.from < n && e.to < n,
                );
                lemma_remove_distinct_keeps_caps(pre1, target as int, o as int, n as nat);
            }
            let ghost pre2 = edges@;
            remove_pair_exec(edges, o, target);
            proof {
                lemma_remove_pair_counts(pre2, o as int, target as int);
                lemma_remove_pair_preserves(
                    pre2,
                    o as int,
                    target as int,
                    |e: MapEdge| e.from < n && e.to < n,
                );
                lemma_remove_distinct_keeps_caps(pre2, o as int, target as int, n as nat);
            }
        }
    }
    Ok(())
}

/// Adds the edge `node -> target`, and the reverse edge when either
/// endpoint is left unbalanced or on an 85% roll.
fn add_links(
    edges: &mut Vec<MapEdge>,
    rng: &mut rand::rngs::StdRng,
    n: usize,
    node: usize,
    target: usize,
)
    requires
        node < n,
        target < n,
        edges_in_range_of(old(edges)@, n as nat),
        pair_caps(old(edges)@, n as nat),
        degrees_capped(old(edges)@, n as nat),
        pair_count(old(edges)@, node as int, target as int) == 0,
        pair_count(old(edges)@, target as int, node as int) == 0,
        spec_degree(old(edges)@, node as int) < MIN_DEGREE,
        spec_degree(old(edges)@, target as int) < MAX_DEGREE,
    ensures
        edges_in_range_of(final(edges)@, n as nat),
        pair_caps(final(edges)@, n as nat),
        degrees_capped(final(edges)@, n as nat),
{
    let ghost pre_fwd = edges@;
    let forward = MapEdge { from: node, to: target };
    edges.push(forward);
    proof {
        lemma_count_push(pre_fwd, forward);
        assert forall|i: int| 0 <= i < edges@.len() implies (#[trigger] edges@[i]).from < n
            && edges@[i].to < n by {
            if i < pre_fwd.len() {
                assert(edges@[i] == pre_fwd[i]);
            }
        }
        assert forall|v: int| 0 <= v < n implies #[trigger] spec_degree(edges@, v)
            <= MAX_DEGREE by {
            assert(spec_degree(pre_fwd, v) <= MAX_DEGREE);
        }
    }

    let bal_t = count_out_in(edges, target) == count_in_in(edges, target);
    let bal_n = count_out_in(edges, node) == count_in_in(edges, node);
    let push_back = if !bal_t || !bal_n {
        true
    } else {
        let roll = rng_below(rng, 0, 100);
        roll < 85
    };
    if push_back {
        let ghost pre_back = edges@;
        let back = MapEdge { from: target, to: node };
        edges.push(back);
        proof {
            lemma_count_push(pre_back, back);
            assert forall|i: int| 0 <= i < edges@.len() implies (#[trigger] edges@[i]).from < n
                && edges@[i].to < n by {
                if i < pre_back.len() {
                    assert(edges@[i] == pre_back[i]);
                }
            }
            assert forall|v: int| 0 <= v < n implies #[trigger] spec_degree(edges@, v)
                <= MAX_DEGREE by {
                assert(spec_degree(pre_back, v) <= MAX_DEGREE);
                assert(spec_degree(pre_fwd, v) <= MAX_DEGREE);
            }
        }
    }
}

pub struct GameMap {
    types: Vec<MapNodeType>,
    edges: Vec<MapEdge>,
}

impl GameMap {
    /// The node types, by node index.
    pub closed spec fn spec_types(&self) -> Seq<MapNodeType> {
        self.types@
    }

    /// The edge list, with multiset semantics.
    pub closed spec fn spec_edges(&self) -> Seq<MapEdge> {
        self.edges@
    }

    /// Number of nodes.
    pub open spec fn n(&self) -> nat {
        self.spec_types().len()
    }

    /// Every edge endpoint names a node of the arena.
    pub open spec fn edges_in_range(&self) -> bool {
        forall|i: int|
            0 <= i < self.spec_edges().len() ==> (#[trigger] self.spec_edges()[i]).from < self.n()
                && self.spec_edges()[i].to < self.n()
    }

    /// The structural bounds the generator guarantees: no duplicate edge
    /// between an ordered pair of distinct nodes, at most two self-loops
    /// per node, and every degree at most `MAX_DEGREE`.
    pub open spec fn degrees_bounded(&self) -> bool {
        &&& pair_caps(self.spec_edges(), self.n())
        &&& degrees_capped(self.spec_edges(), self.n())
    }

    /// Every node has reached the minimum degree.
    pub open spec fn degrees_repaired(&self) -> bool {
        degrees_met(self.spec_edges(), self.n())
    }

    /// The node-count and node-type bounds of a generated board.
    pub open spec fn types_well_distributed(&self) -> bool {
        &&& 12 <= self.n() <= 16
        &&& type_count(self.spec_types(), MapNodeType::Teleport) == 1
        &&& 1 <= type_count(self.spec_types(), MapNodeType::Healing) <= 2
        &&& 1 <= type_count(self.spec_types(), MapNodeType::Gamble) <= 2
    }

    /// Everything `generate` promises of a board it returns.
    pub open spec fn generated_ok(&self) -> bool {
        &&& self.edges_in_range()
        &&& self.degrees_bounded()
        &&& self.degrees_repaired()
        &&& self.types_well_distributed()
    }

    /// Generates a board from the random stream: 12 to 16 nodes — one
    /// Teleport, one or two Healing, one or two Gamble, the rest Normal —
    /// then adds edges until every node's degree lies in
    /// `[MIN_DEGREE, MAX_DEGREE]`, evicting edges from a target already at
    /// the maximum. Fails rather than loop forever when a deficient node
    /// has no valid target, a full node has no outgoing edge to evict, or
    /// the repair budget runs out.
    #[verifier::rlimit(100)]
    pub fn new(rng: &mut rand::rngs::StdRng) -> (r: Result<GameMap, MapGenerationError>)
        ensures
            r is Ok ==> r->Ok_0.generated_ok(),
    {
        let n64 = rng_below(rng, 12, 17);
        let n: usize = n64 as usize;
        let h64 = rng_below(rng, 1, 3);
        let g64 = rng_below(rng, 1, 3);

        let mut types: Vec<MapNodeType> = Vec::new();
        let ghost t0 = types@;
        types.push(MapNodeType::Teleport);
        proof {
            lemma_type_count_push(t0, MapNodeType::Teleport);
        }
        let ghost t1 = types@;
        types.push(MapNodeType::Healing);
        proof {
            lemma_type_count_push(t1, MapNodeType::Healing);
        }
        if h64 == 2 {
            let ghost t2 = types@;
            types.push(MapNodeType::Healing);
            proof {
                lemma_type_count_push(t2, MapNodeType::Healing);
            }
        }
        let ghost t3 = types@;
        types.push(MapNodeType::Gamble);
        proof {
            lemma_type_count_push(t3, MapNodeType::Gamble);
        }
        if g64 == 2 {
            let ghost t4 = types@;
            types.push(MapNodeType::Gamble);
            proof {
                lemma_type_count_push(t4, MapNodeType::Gamble);
            }
        }
        while types.len() < n
            invariant
                type_count(types@, MapNodeType::Teleport) == 1,
                1 <= type_count(types@, MapNodeType::Healing) <= 2,
                1 <= type_count(types@, MapNodeType::Gamble) <= 2,
                types@.len() <= n,
                12 <= n <= 16,
            decreases n - types@.len(),
        {
            let ghost tp = types@;
            types.push(MapNodeType::Normal);
            proof {
                lemma_type_count_push(tp, MapNodeType::Normal);
            }
        }

        let mut edges: Vec<MapEdge> = Vec::new();
        let mut budget: u64 = REPAIR_BUDGET;

        loop
            invariant
                types@.len() == n,
                12 <= n <= 16,
                type_count(types@, MapNodeType::Teleport) == 1,
                1 <= type_count(types@, MapNodeType::Healing) <= 2,
                1 <= type_count(types@, MapNodeType::Gamble) <= 2,
                edges_in_range_of(edges@, n as nat),
                pair_caps(edges@, n as nat),
                degrees_capped(edges@, n as nat),
            decreases budget,
        {
            let low = find_low_degree(&edges, n);
            let node = match low {
                None => {
                    let map = GameMap { types, edges };
                    return Ok(map);
                },
                Some(v) => v,
            };
            if budget == 0 {
                return Err(MapGenerationError::RepairLimit);
            }
            budget = budget - 1;

            let targets = collect_targets(&edges, n, node);
            if targets.len() == 0 {
                return Err(MapGenerationError::NoValidTarget);
            }
            let ti64 = rng_below(rng, 0, targets.len() as u64);
            let target = targets[ti64 as usize];

            // Evict edges until the target can take one more.
            match make_room(&mut edges, n, node, target) {
                Ok(()) => {},
                Err(e) => {
                    return Err(e);
                },
            }

            add_links(&mut edges, rng, n, node, target);
        }
    }

    /// Builds a board from explicit parts, for replaying a known graph.
    /// Refuses an edge list whose endpoints do not name nodes.
    pub fn from_graph(types: Vec<MapNodeType>, edge_pairs: Vec<(usize, usize)>) -> (r: Option<
        GameMap,
    >)
        ensures
            (r is Some) <==> (forall|i: int|
                0 <= i < edge_pairs@.len() ==> (#[trigger] edge_pairs@[i]).0 < types@.len()
                    && edge_pairs@[i].1 < types@.len()),
            r is Some ==> {
                &&& r->Some_0.spec_types() == types@
                &&& r->Some_0.spec_edges().len() == edge_pairs@.len()
                &&& forall|i: int|
                    0 <= i < edge_pairs@.len() ==> (#[trigger] r->Some_0.spec_edges()[i]).from
                        == edge_pairs@[i].0 && r->Some_0.spec_edges()[i].to == edge_pairs@[i].1
                &&& r->Some_0.edges_in_range()
            },
    {
        let n = types.len();
        let mut edges: Vec<MapEdge> = Vec::new();
        let mut i: usize = 0;
        while i < edge_pairs.len()
            invariant
                0 <= i <= edge_pairs@.len(),
                edges@.len() == i,
                forall|j: int|
                    0 <= j < i ==> (#[trigger] edges@[j]).from == edge_pairs@[j].0 && edges@[j].to
                        == edge_pairs@[j].1,
                forall|j: int|
                    0 <= j < i ==> (#[trigger] edge_pairs@[j]).0 < types@.len()
                        && edge_pairs@[j].1 < types@.len(),
                n == types@.len(),
            decreases edge_pairs@.len() - i,
        {
            let (a, b) = edge_pairs[i];
            if a >= n || b >= n {
                return None;
            }
            edges.push(MapEdge { from: a, to: b });
            i += 1;
        }
        Some(GameMap { types, edges })
    }

    /// The number of nodes on the board.
    pub fn node_count(&self) -> (r: usize)
        ensures
            r == self.n(),
    {
        self.types.len()
    }

    /// The type of a node, or `None` for an index off the board.
    pub fn get_node_type(&self, node: usize) -> (r: Option<MapNodeType>)
        ensures
            r == if node < self.n() {
                Some(self.spec_types()[node as int])
            } else {
                None::<MapNodeType>
            },
    {
        if node < self.types.len() {
            Some(self.types[node])
        } else {
            None
        }
    }

    /// All node types, by node index.
    pub fn node_weights(&self) -> (r: Vec<MapNodeType>)
        ensures
            r@ == self.spec_types(),
    {
        let mut out: Vec<MapNodeType> = Vec::new();
        let mut i: usize = 0;
        while i < self.types.len()
            invariant
                0 <= i <= self.types@.len(),
                out@ =~= self.types@.subrange(0, i as int),
            decreases self.types@.len() - i,
        {
            out.push(self.types[i]);
            i += 1;
        }
        assert(out@ =~= self.types@);
        out
    }

    /// All node indices.
    pub fn node_indices(&self) -> (r: Vec<usize>)
        ensures
            r@.len() == self.n(),
            forall|i: int| 0 <= i < r@.len() ==> r@[i] == i,
    {
        let mut out: Vec<usize> = Vec::new();
        let mut i: usize = 0;
        while i < self.types.len()
            invariant
                0 <= i <= self.types@.len(),
                out@.len() == i,
                forall|j: int| 0 <= j < i ==> out@[j] == j,
            decreases self.types@.len() - i,
        {
            out.push(i);
            i += 1;
        }
        out
    }

    /// The outgoing edges of `node`, as `(from, to)` pairs.
    pub fn get_outgoing_edges(&self, node: usize) -> (r: Vec<(usize, usize)>)
        ensures
            r@.len() == out_count(self.spec_edges(), node as int),
            forall|i: int|
                0 <= i < r@.len() ==> (#[trigger] r@[i]).0 == node && pair_count(
                    self.spec_edges(),
                    node as int,
                    r@[i].1 as int,
                ) > 0,
    {
        let mut out: Vec<(usize, usize)> = Vec::new();
        let mut i: usize = 0;
        while i < self.edges.len()
            invariant
                0 <= i <= self.edges@.len(),
                out@.len() == out_count(self.edges@.subrange(0, i as int), node as int),
                forall|j: int|
                    0 <= j < out@.len() ==> (#[trigger] out@[j]).0 == node && pair_count(
                        self.edges@,
                        node as int,
                        out@[j].1 as int,
                    ) > 0,
            decreases self.edges@.len() - i,
        {
            let e = self.edges[i];
            proof {
                assert(self.edges@.subrange(0, i + 1) =~= self.edges@.subrange(0, i as int).push(
                    self.edges@[i as int],
                ));
                lemma_count_push(self.edges@.subrange(0, i as int), self.edges@[i as int]);
                if e.from == node {
                    lemma_pair_count_present(self.edges@, i as int);
                }
            }
            if e.from == node {
                out.push((e.from, e.to));
            }
            i += 1;
        }
        proof {
            assert(self.edges@.subrange(0, self.edges@.len() as int) =~= self.edges@);
        }
        out
    }

    /// The incoming edges of `node`, as `(from, to)` pairs.
    pub fn get_incoming_edges(&self, node: usize) -> (r: Vec<(usize, usize)>)
        ensures
            r@.len() == in_count(self.spec_edges(), node as int),
            forall|i: int| 0 <= i < r@.len() ==> (#[trigger] r@[i]).1 == node,
    {
        let mut out: Vec<(usize, usize)> = Vec::new();
        let mut i: usize = 0;
        while i < self.edges.len()
            invariant
                0 <= i <= self.edges@.len(),
                out@.len() == in_count(self.edges@.subrange(0, i as int), node as int),
                forall|j: int| 0 <= j < out@.len() ==> (#[trigger] out@[j]).1 == node,
            decreases self.edges@.len() - i,
        {
            let e = self.edges[i];
            proof {
                assert(self.edges@.subrange(0, i + 1) =~= self.edges@.subrange(0, i as int).push(
                    self.edges@[i as int],
                ));
                lemma_count_push(self.edges@.subrange(0, i as int), self.edges@[i as int]);
            }
            if e.to == node {
                out.push((e.from, e.to));
            }
            i += 1;
        }
        proof {
            assert(self.edges@.subrange(0, self.edges@.len() as int) =~= self.edges@);
        }
        out
    }

    /// The targets of the outgoing edges of `node`, in edge order, one
    /// entry per edge.
    pub fn get_outgoing_nodes(&self, node: usize) -> (r: Vec<usize>)
        requires
            self.edges_in_range(),
        ensures
            r@ == out_targets(self.spec_edges(), node as int),
            r@.len() == out_count(self.spec_edges(), node as int),
            forall|k: int|
                0 <= k < r@.len() ==> (#[trigger] r@[k]) < self.n() && pair_count(
                    self.spec_edges(),
                    node as int,
                    r@[k] as int,
                ) > 0,
            forall|t: usize|
                pair_count(self.spec_edges(), node as int, t as int) > 0 ==> r@.contains(t),
    {
        let mut out: Vec<usize> = Vec::new();
        let mut i: usize = 0;
        while i < self.edges.len()
            invariant
                0 <= i <= self.edges@.len(),
                self.edges_in_range(),
                out@ == out_targets(self.edges@.subrange(0, i as int), node as int),
                out@.len() == out_count(self.edges@.subrange(0, i as int), node as int),
                forall|k: int|
                    0 <= k < out@.len() ==> (#[trigger] out@[k]) < self.n() && pair_count(
                        self.edges@,
                        node as int,
                        out@[k] as int,
                    ) > 0,
                forall|t: usize|
                    pair_count(self.edges@.subrange(0, i as int), node as int, t as int) > 0
                        ==> out@.contains(t),
            decreases self.edges@.len() - i,
        {
            let e = self.edges[i];
            let ghost prefix = self.edges@.subrange(0, i as int);
            let ghost prefix1 = self.edges@.subrange(0, i + 1);
            proof {
                assert(prefix1 =~= prefix.push(self.edges@[i as int]));
                assert(prefix1.drop_last() =~= prefix);
                assert(prefix1.last() == self.edges@[i as int]);
                lemma_count_push(prefix, self.edges@[i as int]);
                if e.from == node {
                    lemma_pair_count_present(self.edges@, i as int);
                    assert(out_targets(prefix1, node as int) == out_targets(
                        prefix,
                        node as int,
                    ).push(e.to));
                } else {
                    assert(out_targets(prefix1, node as int) == out_targets(prefix, node as int));
                }
            }
            let ghost pre = out@;
            if e.from == node {
                out.push(e.to);
                proof {
                    assert forall|k: int| 0 <= k < out@.len() implies (#[trigger] out@[k])
                        < self.n() && pair_count(self.edges@, node as int, out@[k] as int) > 0 by {
                        if k < pre.len() {
                            assert(out@[k] == pre[k]);
                            assert(pre[k] < self.n() && pair_count(
                                self.edges@,
                                node as int,
                                pre[k] as int,
                            ) > 0);
                        } else {
                            assert(out@[k] == e.to);
                            assert(self.spec_edges()[i as int] == e);
                            assert(e.to < self.n());
                            assert(pair_count(self.edges@, node as int, e.to as int) > 0);
                        }
                    }
                }
            }
            proof {
                assert forall|t: usize|
                    pair_count(prefix1, node as int, t as int) > 0 implies out@.contains(t) by {
                    if pair_count(prefix, node as int, t as int) > 0 {
                        assert(pre.contains(t));
                        if e.from == node {
                            let j = choose|j: int| 0 <= j < pre.len() && pre[j] == t;
                            assert(out@[j] == t);
                        }
                    } else {
                        assert(e.from == node && e.to == t);
                        assert(out@[out@.len() - 1] == e.to);
                    }
                }
            }
            i += 1;
        }
        proof {
            assert(self.edges@.subrange(0, self.edges@.len() as int) =~= self.edges@);
        }
        out
    }

    /// The moves available from `from`: targets of its outgoing edges that
    /// no blocked position occupies.
    pub fn get_available_moves(&self, from: usize, blocked_positions: &Vec<usize>) -> (r: Vec<
        usize,
    >)
        requires
            self.edges_in_range(),
        ensures
            r@ == out_targets(self.spec_edges(), from as int).filter(
                unblocked(blocked_positions@),
            ),
            forall|t: usize|
                r@.contains(t) <==> (t < self.n() && pair_count(self.spec_edges(), from as int, t as int)
                    > 0 && !blocked_positions@.contains(t)),
    {
        let all = self.get_outgoing_nodes(from);
        let mut out: Vec<usize> = Vec::new();
        let mut i: usize = 0;
        while i < all.len()
            invariant
                0 <= i <= all@.len(),
                all@ == out_targets(self.spec_edges(), from as int),
                out@ == all@.subrange(0, i as int).filter(unblocked(blocked_positions@)),
                forall|k: int|
                    0 <= k < all@.len() ==> (#[trigger] all@[k]) < self.n() && pair_count(
                        self.spec_edges(),
                        from as int,
                        all@[k] as int,
                    ) > 0,
                forall|t: usize|
                    pair_count(self.spec_edges(), from as int, t as int) > 0 ==> all@.contains(t),
                forall|t: usize|
                    out@.contains(t) ==> (t < self.n() && pair_count(
                        self.spec_edges(),
                        from as int,
                        t as int,
                    ) > 0 && !blocked_positions@.contains(t)),
                forall|j: int|
                    0 <= j < i && !blocked_positions@.contains(#[trigger] all@[j]) ==> out@.contains(
                        all@[j],
                    ),
            decreases all@.len() - i,
        {
            let t = all[i];
            proof {
                assert(all@[i as int] == t);
                assert(all@.subrange(0, i + 1) =~= all@.subrange(0, i as int) + seq![t]);
                Seq::<usize>::filter_distributes_over_add(
                    all@.subrange(0, i as int),
                    seq![t],
                    unblocked(blocked_positions@),
                );
                reveal_with_fuel(Seq::<usize>::filter, 3);
                assert(seq![t].drop_last() =~= Seq::<usize>::empty());
                if unblocked(blocked_positions@)(t) {
                    assert(seq![t].filter(unblocked(blocked_positions@)) =~= seq![t]);
                } else {
                    assert(seq![t].filter(unblocked(blocked_positions@)) =~= Seq::<usize>::empty());
                }
            }
            if !contains_usize(blocked_positions, t) {
                let ghost pre = out@;
                out.push(t);
                proof {
                    assert forall|u: usize| out@.contains(u) implies (u < self.n() && pair_count(
                        self.spec_edges(),
                        from as int,
                        u as int,
                    ) > 0 && !blocked_positions@.contains(u)) by {
                        let j = choose|j: int| 0 <= j < out@.len() && out@[j] == u;
                        if j < pre.len() {
                            assert(pre[j] == u);
                            assert(pre.contains(u));
                        } else {
                            assert(u == t);
                        }
                    }
                    assert forall|u: usize| pre.contains(u) implies out@.contains(u) by {
                        let j = choose|j: int| 0 <= j < pre.len() && pre[j] == u;
                        assert(out@[j] == u);
                    }
                    assert(out@[out@.len() - 1] == t);
                    assert(out@.contains(t));
                }
            }
            i += 1;
        }
        proof {
            assert(all@.subrange(0, all@.len() as int) =~= all@);
            assert forall|t: usize|
                t < self.n() && pair_count(self.spec_edges(), from as int, t as int) > 0
                    && !blocked_positions@.contains(t) implies out@.contains(t) by {
                assert(all@.contains(t));
                let j = choose|j: int| 0 <= j < all@.len() && all@[j] == t;
            }
        }
        out
    }

    /// The available moves from `from`, in a random order.
    pub fn shuffle_available_moves(
        &self,
        from: usize,
        blocked_positions: &Vec<usize>,
        rng: &mut rand::rngs::StdRng,
    ) -> (r: Vec<usize>)
        requires
            self.edges_in_range(),
        ensures
            r@.to_multiset() == out_targets(self.spec_edges(), from as int).filter(
                unblocked(blocked_positions@),
            ).to_multiset(),
            forall|t: usize|
                r@.contains(t) <==> (t < self.n() && pair_count(self.spec_edges(), from as int, t as int)
                    > 0 && !blocked_positions@.contains(t)),
    {
        let mut moves = self.get_available_moves(from, blocked_positions);
        let ghost pre = moves@;
        rng_shuffle(rng, &mut moves);
        proof {
            broadcast use vstd::seq_lib::group_to_multiset_ensures;

            assert forall|t: usize|
                moves@.contains(t) <==> (t < self.n() && pair_count(
                    self.spec_edges(),
                    from as int,
                    t as int,
                ) > 0 && !blocked_positions@.contains(t)) by {
                if moves@.contains(t) {
                    assert(moves@.to_multiset().count(t) > 0);
                    assert(pre.to_multiset().count(t) > 0);
                    assert(pre.contains(t));
                }
                if t < self.n() && pair_count(self.spec_edges(), from as int, t as int) > 0
                    && !blocked_positions@.contains(t) {
                    assert(pre.contains(t));
                    assert(pre.to_multiset().count(t) > 0);
                    assert(moves@.to_multiset().count(t) > 0);
                    assert(moves@.contains(t));
                }
            }
        }
        moves
    }

    /// A uniformly random node that is neither blocked nor the Teleport
    /// node; `None` exactly when no such node exists.
    pub fn get_random_empty_node(
        &self,
        blocked_positions: &Vec<usize>,
        rng: &mut rand::rngs::StdRng,
    ) -> (r: Option<usize>)
        ensures
            r is Some ==> r->0 < self.n() && !blocked_positions@.contains(r->0)
                && self.spec_types()[r->0 as int] != MapNodeType::Teleport,
            (r is Some) <==> (exists|t: int|
                0 <= t < self.n() && !blocked_positions@.contains(t as usize)
                    && self.spec_types()[t] != MapNodeType::Teleport),
    {
        let n = self.types.len();
        let mut cands: Vec<usize> = Vec::new();
        let mut t: usize = 0;
        while t < n
            invariant
                0 <= t <= n,
                n == self.n(),
                forall|k: int|
                    0 <= k < cands@.len() ==> (#[trigger] cands@[k]) < n && !blocked_positions@.contains(
                        cands@[k],
                    ) && self.spec_types()[cands@[k] as int] != MapNodeType::Teleport,
                forall|u: int|
                    0 <= u < t && !blocked_positions@.contains(u as usize) && self.spec_types()[u]
                        != MapNodeType::Teleport ==> cands@.contains(u as usize),
            decreases n - t,
        {
            let is_teleport = match self.types[t] {
                MapNodeType::Teleport => true,
                _ => false,
            };
            if !contains_usize(blocked_positions, t) && !is_teleport {
                let ghost pre = cands@;
                cands.push(t);
                proof {
                    assert forall|u: usize| pre.contains(u) implies cands@.contains(u) by {
                        let j = choose|j: int| 0 <= j < pre.len() && pre[j] == u;
                        assert(cands@[j] == u);
                    }
                    assert(cands@[cands@.len() - 1] == t);
                    assert(cands@.contains(t));
                }
            }
            t += 1;
        }
        if cands.len() == 0 {
            proof {
                assert forall|u: int|
                    0 <= u < self.n() && !blocked_positions@.contains(u as usize)
                        && self.spec_types()[u] != MapNodeType::Teleport implies false by {
                    assert(cands@.contains(u as usize));
                }
            }
            None
        } else {
            let i64r = rng_below(rng, 0, cands.len() as u64);
            let pick = cands[i64r as usize];
            proof {
                assert(cands@.contains(pick));
                assert(0 <= (cands@[0] as int) < self.n());
            }
            Some(pick)
        }
    }

    /// How many self-loop edges `node` carries.
    pub fn get_loops(&self, node: usize) -> (r: usize)
        ensures
            r == pair_count(self.spec_edges(), node as int, node as int),
    {
        self.count_pair(node, node)
    }

    /// True when `node` has as many outgoing as incoming edges.
    pub fn is_node_balanced(&self, node: usize) -> (r: bool)
        ensures
            r == (out_count(self.spec_edges(), node as int) == in_count(
                self.spec_edges(),
                node as int,
            )),
    {
        self.count_out(node) == self.count_in(node)
    }

    /// A node's degree: the larger of out- and in-degree, discounting
    /// paired self-loops.
    pub fn get_node_degree(&self, node: usize) -> (r: usize)
        ensures
            r == spec_degree(self.spec_edges(), node as int),
    {
        degree_in(&self.edges, node)
    }

    fn count_out(&self, node: usize) -> (r: usize)
        ensures
            r == out_count(self.spec_edges(), node as int),
    {
        count_out_in(&self.edges, node)
    }

    fn count_in(&self, node: usize) -> (r: usize)
        ensures
            r == in_count(self.spec_edges(), node as int),
    {
        count_in_in(&self.edges, node)
    }

    fn count_pair(&self, a: usize, b: usize) -> (r: usize)
        ensures
            r == pair_count(self.spec_edges(), a as int, b as int),
    {
        count_pair_in(&self.edges, a, b)
    }
}

pub proof fn lemma_pair_count_within_len(es: Seq<MapEdge>, a: int, b: int)
    ensures
        pair_count(es, a, b) <= es.len(),
    decreases es.len(),
{
    if es.len() > 0 {
        lemma_pair_count_within_len(es.drop_last(), a, b);
    }
}

/// An edge present at index `i` is counted by `pair_count` for its endpoints.
pub proof fn lemma_pair_count_present(es: Seq<MapEdge>, i: int)
    requires
        0 <= i < es.len(),
    ensures
        pair_count(es, es[i].from as int, es[i].to as int) > 0,
    decreases es.len(),
{
    if i == es.len() - 1 {
    } else {
        lemma_pair_count_present(es.drop_last(), i);
    }
}

} // verus!
