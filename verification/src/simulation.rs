//! Graph utilities for simulated traces.

use crate::fuzzy_traceback::{has_key, list_contains, record_edge, TracedEdge};
use crate::tool::utils::{bytes_equal, decimal, hash, integer_to_string, spec_hash};
use std::collections::HashMap;
use vstd::prelude::*;
use vstd::string::StringExecFns;

verus! {

broadcast use vstd::std_specs::hash::group_hash_axioms;

/// One step of a simulated trace: a node, and the node from which it was
/// reached.
#[derive(Debug, Clone, Copy, PartialEq, Eq, Structural)]
pub struct TraceMd {
    pub node: usize,
    pub prev_node: usize,
}

impl TraceMd {
    /// The step to `node` from `prev_node`.
    pub fn new(node: usize, prev_node: usize) -> (md: TraceMd)
        ensures
            md == (TraceMd { node, prev_node }),
    {
        TraceMd { node, prev_node }
    }
}

/// Whether `e` is among `list`.
pub fn pairs_contain(list: &Vec<(usize, usize)>, e: (usize, usize)) -> (found: bool)
    ensures
        found == list@.contains(e),
{
    let mut i: usize = 0;
    while i < list.len()
        invariant
            i <= list@.len(),
            forall|j: int| 0 <= j < i ==> list@[j] != e,
        decreases list@.len() - i,
    {
        if list[i].0 == e.0 && list[i].1 == e.1 {
            return true;
        }
        i = i + 1;
    }
    false
}

/// Whether the edge from `snd` to `rcv` is still to be recorded: it is not
/// among `edges_state`, and, where edges have no direction, neither is its
/// reverse.
pub fn vec_edge_exists(
    is_directed: &bool,
    edges_state: &Vec<(usize, usize)>,
    snd: usize,
    rcv: usize,
) -> (free: bool)
    ensures
        free == (!edges_state@.contains((snd, rcv)) && (*is_directed || !edges_state@.contains(
            (rcv, snd),
        ))),
{
    if *is_directed {
        !pairs_contain(edges_state, (snd, rcv))
    } else {
        !pairs_contain(edges_state, (snd, rcv)) && !pairs_contain(edges_state, (rcv, snd))
    }
}

/// The mark under which the edge from `a` to `b` is remembered: the hash of
/// the two decimal numerals, one after the other.
pub open spec fn edge_mark(a: usize, b: usize) -> Seq<u8> {
    spec_hash(decimal(a as nat) + decimal(b as nat))
}

/// What was kept of the first `n` edges of `list`, and the marks that were
/// remembered for them. An edge is dropped where its mark and the mark of its
/// reverse are both remembered already; else it is kept and both marks are
/// remembered.
pub open spec fn spec_dedup(list: Seq<(usize, usize)>, n: nat) -> (
    Seq<(usize, usize)>,
    Seq<Seq<u8>>,
)
    decreases n,
{
    if n == 0 {
        (Seq::empty(), Seq::empty())
    } else {
        let (kept, marks) = spec_dedup(list, (n - 1) as nat);
        let e = list[n - 1];
        let tag_1 = edge_mark(e.0, e.1);
        let tag_2 = edge_mark(e.1, e.0);
        if marks.contains(tag_1) && marks.contains(tag_2) {
            (kept, marks)
        } else {
            (kept.push(e), marks.push(tag_1).push(tag_2))
        }
    }
}

/// The marks of `marks`, each as a byte sequence.
pub open spec fn marks_view(marks: Seq<[u8; 16]>) -> Seq<Seq<u8>> {
    Seq::new(marks.len(), |i: int| marks[i]@)
}

/// Computes the mark of the edge from `a` to `b`.
fn mark_edge(a: usize, b: usize) -> (mark: [u8; 16])
    ensures
        mark@ == edge_mark(a, b),
{
    let second = integer_to_string(b as u64);
    hash(&integer_to_string(a as u64).concat(second.as_str()))
}

/// Whether `mark` is among `marks`.
fn marks_contain(marks: &Vec<[u8; 16]>, mark: &[u8; 16]) -> (found: bool)
    ensures
        found == marks_view(marks@).contains(mark@),
{
    let mut i: usize = 0;
    while i < marks.len()
        invariant
            i <= marks@.len(),
            forall|j: int| 0 <= j < i ==> marks_view(marks@)[j] != mark@,
        decreases marks@.len() - i,
    {
        if bytes_equal(marks[i].as_slice(), mark.as_slice()) {
            assert(marks_view(marks@)[i as int] == mark@);
            return true;
        }
        i = i + 1;
    }
    false
}

/// Drops from a list of undirected edges those that were met before, in
/// either direction, and keeps the order of the others.
pub fn dedup_vec_edges(list: &Vec<(usize, usize)>) -> (exist_edge: Vec<(usize, usize)>)
    ensures
        exist_edge@ == spec_dedup(list@, list@.len()).0,
{
    let mut exist_edge: Vec<(usize, usize)> = Vec::new();
    let mut contained_edges: Vec<[u8; 16]> = Vec::new();
    let mut i: usize = 0;
    assert(marks_view(contained_edges@) =~= Seq::<Seq<u8>>::empty());
    while i < list.len()
        invariant
            i <= list@.len(),
            exist_edge@ == spec_dedup(list@, i as nat).0,
            marks_view(contained_edges@) == spec_dedup(list@, i as nat).1,
        decreases list@.len() - i,
    {
        let e = list[i];
        let tag_1 = mark_edge(e.0, e.1);
        let tag_2 = mark_edge(e.1, e.0);
        if !(marks_contain(&contained_edges, &tag_1) && marks_contain(&contained_edges, &tag_2)) {
            let ghost before = marks_view(contained_edges@);
            contained_edges.push(tag_1);
            contained_edges.push(tag_2);
            assert(marks_view(contained_edges@) =~= before.push(tag_1@).push(tag_2@));
            exist_edge.push(e);
        }
        i = i + 1;
    }
    exist_edge
}

// ---------------------------------------------------------------------------
// Simulated traces, round by round
// ---------------------------------------------------------------------------
//
// A simulated trace walks a social graph instead of asking the stores. Which
// neighbors a node has, and for which of them the membership test would be
// positive (rightly or falsely), is decided outside; what a round of the
// search makes of those answers is decided here.

/// Whether the neighbor lists and the answers line up with `len` nodes.
pub open spec fn answers_shaped(len: nat, nbrs: Seq<Vec<usize>>, positive: Seq<Vec<bool>>) -> bool {
    &&& nbrs.len() == len
    &&& positive.len() == len
    &&& forall|i: int| 0 <= i < len ==> (#[trigger] positive[i])@.len() == nbrs[i]@.len()
}

/// Whether the neighbor lists and the answers line up with `len` nodes.
pub fn answers_are_shaped(len: usize, nbrs: &Vec<Vec<usize>>, positive: &Vec<Vec<bool>>) -> (ok:
    bool)
    ensures
        ok == answers_shaped(len as nat, nbrs@, positive@),
{
    if nbrs.len() != len || positive.len() != len {
        return false;
    }
    let mut i: usize = 0;
    while i < len
        invariant
            i <= len,
            nbrs@.len() == len,
            positive@.len() == len,
            forall|k: int| 0 <= k < i ==> (#[trigger] positive@[k])@.len() == nbrs@[k]@.len(),
        decreases len - i,
    {
        if positive[i].len() != nbrs[i].len() {
            return false;
        }
        i = i + 1;
    }
    true
}

/// What a round of a simulated trace has made so far: the table of traced
/// edges, and the steps for the next round.
#[verifier::ext_equal]
pub struct Searched {
    pub edges: Seq<TracedEdge>,
    pub next: Seq<TraceMd>,
}

/// `edges` with `e` recorded: the first record of an edge stands.
pub open spec fn spec_record(edges: Seq<TracedEdge>, e: TracedEdge) -> Seq<TracedEdge> {
    if has_key(edges, e.from, e.to) {
        edges
    } else {
        edges.push(e)
    }
}

/// `acc` after the first `n` neighbors of the step `tmd` were looked at. A
/// positive neighbor is recorded as an edge from the step's node, found in
/// round `depth` on the way from the step's previous node; and where the step
/// was not searched before (`fresh`), the neighbor is a step of the next
/// round.
pub open spec fn search_step(
    acc: Searched,
    tmd: TraceMd,
    fresh: bool,
    nbrs: Seq<usize>,
    positive: Seq<bool>,
    depth: usize,
    n: nat,
) -> Searched
    decreases n,
{
    if n == 0 {
        acc
    } else {
        let prev = search_step(acc, tmd, fresh, nbrs, positive, depth, (n - 1) as nat);
        if positive[n - 1] {
            Searched {
                edges: spec_record(
                    prev.edges,
                    TracedEdge { from: tmd.node, to: nbrs[n - 1], depth, via: tmd.prev_node },
                ),
                next: if fresh {
                    prev.next.push(TraceMd { node: nbrs[n - 1], prev_node: tmd.node })
                } else {
                    prev.next
                },
            }
        } else {
            prev
        }
    }
}

/// `acc` after the first `m` steps of `curr` were searched.
pub open spec fn search_steps(
    acc: Searched,
    curr: Seq<TraceMd>,
    searched: Seq<TraceMd>,
    nbrs: Seq<Vec<usize>>,
    positive: Seq<Vec<bool>>,
    depth: usize,
    m: nat,
) -> Searched
    decreases m,
{
    if m == 0 {
        acc
    } else {
        let prev = search_steps(acc, curr, searched, nbrs, positive, depth, (m - 1) as nat);
        search_step(
            prev,
            curr[m - 1],
            !searched.contains(curr[m - 1]),
            nbrs[m - 1]@,
            positive[m - 1]@,
            depth,
            nbrs[m - 1]@.len(),
        )
    }
}

/// Whether `step` is among `list`.
pub fn steps_contain(list: &Vec<TraceMd>, step: &TraceMd) -> (found: bool)
    ensures
        found == list@.contains(*step),
{
    let mut i: usize = 0;
    while i < list.len()
        invariant
            i <= list@.len(),
            forall|j: int| 0 <= j < i ==> list@[j] != *step,
        decreases list@.len() - i,
    {
        if list[i] == *step {
            return true;
        }
        i = i + 1;
    }
    false
}

/// One round of a simulated trace. Every step of `curr_tmd` is searched:
/// `nbrs` holds the neighbors of each step's node and `positive`, for each
/// of them, whether the membership test is positive. The positive neighbors
/// are recorded in `edge_list`; the steps of this round join `searched_tmd`,
/// and `curr_tmd` becomes the steps of the next round.
///
/// Answers that do not line up with the steps are refused and change
/// nothing.
pub fn one_round_search(
    curr_tmd: &mut Vec<TraceMd>,
    nbrs: &Vec<Vec<usize>>,
    positive: &Vec<Vec<bool>>,
    depth: usize,
    edge_list: &mut Vec<TracedEdge>,
    searched_tmd: &mut Vec<TraceMd>,
) -> (ok: bool)
    ensures
        ok == answers_shaped(old(curr_tmd)@.len(), nbrs@, positive@),
        !ok ==> final(curr_tmd)@ == old(curr_tmd)@ && final(edge_list)@ == old(edge_list)@
            && final(searched_tmd)@ == old(searched_tmd)@,
        ok ==> {
            let out = search_steps(
                Searched { edges: old(edge_list)@, next: Seq::empty() },
                old(curr_tmd)@,
                old(searched_tmd)@,
                nbrs@,
                positive@,
                depth,
                old(curr_tmd)@.len(),
            );
            &&& final(edge_list)@ == out.edges
            &&& final(curr_tmd)@ == out.next
            &&& final(searched_tmd)@ == old(searched_tmd)@ + old(curr_tmd)@
        },
{
    if !answers_are_shaped(curr_tmd.len(), nbrs, positive) {
        return false;
    }
    let ghost seed = Searched { edges: edge_list@, next: Seq::empty() };
    let mut next_tmd: Vec<TraceMd> = Vec::new();
    let mut i: usize = 0;
    while i < curr_tmd.len()
        invariant
            i <= curr_tmd@.len(),
            curr_tmd@ == old(curr_tmd)@,
            searched_tmd@ == old(searched_tmd)@,
            answers_shaped(curr_tmd@.len(), nbrs@, positive@),
            (Searched { edges: edge_list@, next: next_tmd@ }) == search_steps(
                seed,
                curr_tmd@,
                searched_tmd@,
                nbrs@,
                positive@,
                depth,
                i as nat,
            ),
        decreases curr_tmd@.len() - i,
    {
        let tmd = curr_tmd[i];
        let fresh = !steps_contain(searched_tmd, &tmd);
        let ghost before = Searched { edges: edge_list@, next: next_tmd@ };
        let mut j: usize = 0;
        while j < nbrs[i].len()
            invariant
                i < curr_tmd@.len(),
                nbrs@.len() == curr_tmd@.len(),
                positive@.len() == curr_tmd@.len(),
                j <= nbrs@[i as int]@.len(),
                positive@[i as int]@.len() == nbrs@[i as int]@.len(),
                (Searched { edges: edge_list@, next: next_tmd@ }) == search_step(
                    before,
                    tmd,
                    fresh,
                    nbrs@[i as int]@,
                    positive@[i as int]@,
                    depth,
                    j as nat,
                ),
            decreases nbrs@[i as int]@.len() - j,
        {
            if positive[i][j] {
                let found = nbrs[i][j];
                record_edge(
                    edge_list,
                    TracedEdge { from: tmd.node, to: found, depth, via: tmd.prev_node },
                );
                if fresh {
                    next_tmd.push(TraceMd { node: found, prev_node: tmd.node });
                }
            }
            j = j + 1;
        }
        i = i + 1;
    }
    searched_tmd.append(curr_tmd);
    curr_tmd.append(&mut next_tmd);
    true
}

/// What a round of a simulated flood has made so far: the edges found, and
/// the nodes for the next round.
#[verifier::ext_equal]
pub struct Flooded {
    pub edges: Seq<(usize, usize)>,
    pub next: Seq<usize>,
}

/// `acc` after the first `n` neighbors of `node` were looked at. A positive
/// neighbor is recorded as an edge from the node unless the edge is recorded
/// already in either direction, and is a node of the next round unless it was
/// searched before.
pub open spec fn flood_node(
    acc: Flooded,
    node: usize,
    searched: Seq<usize>,
    nbrs: Seq<usize>,
    positive: Seq<bool>,
    n: nat,
) -> Flooded
    decreases n,
{
    if n == 0 {
        acc
    } else {
        let prev = flood_node(acc, node, searched, nbrs, positive, (n - 1) as nat);
        let nbr = nbrs[n - 1];
        if positive[n - 1] {
            Flooded {
                edges: if !prev.edges.contains((nbr, node)) && !prev.edges.contains((node, nbr)) {
                    prev.edges.push((node, nbr))
                } else {
                    prev.edges
                },
                next: if searched.contains(nbr) {
                    prev.next
                } else {
                    prev.next.push(nbr)
                },
            }
        } else {
            prev
        }
    }
}

/// `acc` after the first `m` nodes of `curr` were searched.
pub open spec fn flood_nodes(
    acc: Flooded,
    curr: Seq<usize>,
    searched: Seq<usize>,
    nbrs: Seq<Vec<usize>>,
    positive: Seq<Vec<bool>>,
    m: nat,
) -> Flooded
    decreases m,
{
    if m == 0 {
        acc
    } else {
        let prev = flood_nodes(acc, curr, searched, nbrs, positive, (m - 1) as nat);
        flood_node(
            prev,
            curr[m - 1],
            searched,
            nbrs[m - 1]@,
            positive[m - 1]@,
            nbrs[m - 1]@.len(),
        )
    }
}

/// One round of a simulated flood, which follows every positive neighbor
/// whoever it was reached from. Every node of `curr_nodes` is searched:
/// `nbrs` holds its neighbors and `positive`, for each of them, whether the
/// membership test is positive. The edges found join `fuzz_edge_list`, the
/// nodes of this round join `searched_nodes`, and `curr_nodes` becomes the
/// nodes of the next round.
///
/// Answers that do not line up with the nodes are refused and change
/// nothing.
pub fn fuzz_bfs_round(
    curr_nodes: &mut Vec<usize>,
    nbrs: &Vec<Vec<usize>>,
    positive: &Vec<Vec<bool>>,
    fuzz_edge_list: &mut Vec<(usize, usize)>,
    searched_nodes: &mut Vec<usize>,
) -> (ok: bool)
    ensures
        ok == answers_shaped(old(curr_nodes)@.len(), nbrs@, positive@),
        !ok ==> final(curr_nodes)@ == old(curr_nodes)@ && final(fuzz_edge_list)@ == old(
            fuzz_edge_list,
        )@ && final(searched_nodes)@ == old(searched_nodes)@,
        ok ==> {
            let out = flood_nodes(
                Flooded { edges: old(fuzz_edge_list)@, next: Seq::empty() },
                old(curr_nodes)@,
                old(searched_nodes)@,
                nbrs@,
                positive@,
                old(curr_nodes)@.len(),
            );
            &&& final(fuzz_edge_list)@ == out.edges
            &&& final(curr_nodes)@ == out.next
            &&& final(searched_nodes)@ == old(searched_nodes)@ + old(curr_nodes)@
        },
{
    if !answers_are_shaped(curr_nodes.len(), nbrs, positive) {
        return false;
    }
    let ghost seed = Flooded { edges: fuzz_edge_list@, next: Seq::empty() };
    let mut next_nodes: Vec<usize> = Vec::new();
    let mut i: usize = 0;
    while i < curr_nodes.len()
        invariant
            i <= curr_nodes@.len(),
            curr_nodes@ == old(curr_nodes)@,
            searched_nodes@ == old(searched_nodes)@,
            answers_shaped(curr_nodes@.len(), nbrs@, positive@),
            (Flooded { edges: fuzz_edge_list@, next: next_nodes@ }) == flood_nodes(
                seed,
                curr_nodes@,
                searched_nodes@,
                nbrs@,
                positive@,
                i as nat,
            ),
        decreases curr_nodes@.len() - i,
    {
        let node = curr_nodes[i];
        let ghost before = Flooded { edges: fuzz_edge_list@, next: next_nodes@ };
        let mut j: usize = 0;
        while j < nbrs[i].len()
            invariant
                i < curr_nodes@.len(),
                nbrs@.len() == curr_nodes@.len(),
                positive@.len() == curr_nodes@.len(),
                j <= nbrs@[i as int]@.len(),
                positive@[i as int]@.len() == nbrs@[i as int]@.len(),
                (Flooded { edges: fuzz_edge_list@, next: next_nodes@ }) == flood_node(
                    before,
                    node,
                    searched_nodes@,
                    nbrs@[i as int]@,
                    positive@[i as int]@,
                    j as nat,
                ),
            decreases nbrs@[i as int]@.len() - j,
        {
            if positive[i][j] {
                let nbr = nbrs[i][j];
                if vec_edge_exists(&false, fuzz_edge_list, nbr, node) {
                    fuzz_edge_list.push((node, nbr));
                }
                if !list_contains(searched_nodes, nbr) {
                    next_nodes.push(nbr);
                }
            }
            j = j + 1;
        }
        i = i + 1;
    }
    searched_nodes.append(curr_nodes);
    curr_nodes.append(&mut next_nodes);
    true
}

// ---------------------------------------------------------------------------
// A simulated spread, round by round
// ---------------------------------------------------------------------------
//
// A message spreads over a social graph like an infection: a user who holds
// it passes it on to neighbors for a while and then stops. The coins that
// decide who is reached and who stops are tossed outside; what a round makes
// of them is decided here.

/// Where a user stands in a spread.
#[derive(Debug, Clone, Copy, PartialEq, Eq, Structural)]
pub enum Condition {
    /// Has not got the message yet.
    Susceptible,
    /// Has got the message and passes it on.
    Infective,
    /// Has stopped passing it on.
    Recovered,
}

/// A spread as the contracts see it.
#[verifier::ext_equal]
pub struct Spread {
    /// Where each user stands.
    pub states: Seq<Condition>,
    /// The edges along which the message was passed, in order.
    pub edges: Seq<(usize, usize)>,
    /// From whom each user got the message first.
    pub sources: Map<usize, usize>,
    /// The users who got the message in this round.
    pub reached: Seq<usize>,
}

/// The users that pass the message on: those among the first `n` of `states`
/// that are infective, in order.
pub open spec fn spec_infected(states: Seq<Condition>, n: nat) -> Seq<usize>
    decreases n,
{
    if n == 0 {
        Seq::empty()
    } else {
        let before = spec_infected(states, (n - 1) as nat);
        if states[n - 1] == Condition::Infective {
            before.push((n - 1) as usize)
        } else {
            before
        }
    }
}

/// The users that pass the message on, in order.
pub fn infected_nodes(nodes_state: &Vec<Condition>) -> (infected: Vec<usize>)
    ensures
        infected@ == spec_infected(nodes_state@, nodes_state@.len()),
        forall|i: int| 0 <= i < infected@.len() ==> infected@[i] < nodes_state@.len(),
{
    let mut infected: Vec<usize> = Vec::new();
    let mut n: usize = 0;
    while n < nodes_state.len()
        invariant
            n <= nodes_state@.len(),
            infected@ == spec_infected(nodes_state@, n as nat),
            forall|i: int| 0 <= i < infected@.len() ==> infected@[i] < n,
        decreases nodes_state@.len() - n,
    {
        if nodes_state[n] == Condition::Infective {
            infected.push(n);
        }
        n = n + 1;
    }
    infected
}

/// `acc` after the user `n` has turned to the neighbor `nbr` with the coin
/// `coin`. A susceptible neighbor is reached where the coin says so. Any
/// other neighbor is passed the message where the coin says so, unless that
/// neighbor passed it to `n` before. Where the message is passed and the edge
/// is new, the edge is recorded, and `n` is the neighbor's source if the
/// neighbor has none yet.
pub open spec fn spread_to(acc: Spread, n: usize, nbr: usize, coin: bool) -> Spread {
    let susceptible = acc.states[nbr as int] == Condition::Susceptible;
    let passed = if susceptible {
        coin
    } else {
        !acc.edges.contains((nbr, n)) && coin
    };
    let reached = if susceptible && coin {
        acc.reached.push(nbr)
    } else {
        acc.reached
    };
    if passed && !acc.edges.contains((n, nbr)) {
        Spread {
            states: acc.states,
            edges: acc.edges.push((n, nbr)),
            sources: if acc.sources.contains_key(nbr) {
                acc.sources
            } else {
                acc.sources.insert(nbr, n)
            },
            reached,
        }
    } else {
        Spread { states: acc.states, edges: acc.edges, sources: acc.sources, reached }
    }
}

/// `acc` after the user `n` has turned to the first `k` of its neighbors.
pub open spec fn spread_from(acc: Spread, n: usize, nbrs: Seq<usize>, coins: Seq<bool>, k: nat) -> Spread
    decreases k,
{
    if k == 0 {
        acc
    } else {
        spread_to(spread_from(acc, n, nbrs, coins, (k - 1) as nat), n, nbrs[k - 1], coins[k - 1])
    }
}

/// `acc` after the first `m` infective users have had their turn: each turns
/// to all its neighbors, and then stops where its coin says so.
pub open spec fn spread_round(
    acc: Spread,
    infected: Seq<usize>,
    nbrs: Seq<Vec<usize>>,
    infect: Seq<Vec<bool>>,
    recover: Seq<bool>,
    m: nat,
) -> Spread
    decreases m,
{
    if m == 0 {
        acc
    } else {
        let before = spread_round(acc, infected, nbrs, infect, recover, (m - 1) as nat);
        let n = infected[m - 1];
        let after = spread_from(before, n, nbrs[m - 1]@, infect[m - 1]@, nbrs[m - 1]@.len());
        if recover[m - 1] {
            Spread {
                states: after.states.update(n as int, Condition::Recovered),
                edges: after.edges,
                sources: after.sources,
                reached: after.reached,
            }
        } else {
            after
        }
    }
}

/// `states` with the first `k` of `reached` infective.
pub open spec fn settle(states: Seq<Condition>, reached: Seq<usize>, k: nat) -> Seq<Condition>
    decreases k,
{
    if k == 0 {
        states
    } else {
        settle(states, reached, (k - 1) as nat).update(
            reached[k - 1] as int,
            Condition::Infective,
        )
    }
}

/// Whether the neighbor lists and the coins line up with the infective users
/// of `states`, and every neighbor is a user.
pub open spec fn coins_shaped(
    states: Seq<Condition>,
    nbrs: Seq<Vec<usize>>,
    infect: Seq<Vec<bool>>,
    recover: Seq<bool>,
) -> bool {
    let len = spec_infected(states, states.len()).len();
    &&& answers_shaped(len, nbrs, infect)
    &&& recover.len() == len
    &&& forall|i: int, j: int|
        0 <= i < len && 0 <= j < nbrs[i]@.len() ==> (#[trigger] nbrs[i]@[j]) < states.len()
}

/// Whether the neighbor lists and the coins line up with the infective users
/// of `nodes_state`, and every neighbor is a user.
pub fn coins_are_shaped(
    nodes_state: &Vec<Condition>,
    nbrs: &Vec<Vec<usize>>,
    infect: &Vec<Vec<bool>>,
    recover: &Vec<bool>,
) -> (ok: bool)
    ensures
        ok == coins_shaped(nodes_state@, nbrs@, infect@, recover@),
{
    let infected = infected_nodes(nodes_state);
    if !answers_are_shaped(infected.len(), nbrs, infect) || recover.len() != infected.len() {
        return false;
    }
    let mut i: usize = 0;
    while i < nbrs.len()
        invariant
            i <= nbrs@.len(),
            forall|a: int, b: int|
                0 <= a < i && 0 <= b < nbrs@[a]@.len() ==> (#[trigger] nbrs@[a]@[b])
                    < nodes_state@.len(),
        decreases nbrs@.len() - i,
    {
        let mut j: usize = 0;
        while j < nbrs[i].len()
            invariant
                i < nbrs@.len(),
                j <= nbrs@[i as int]@.len(),
                forall|b: int| 0 <= b < j ==> (#[trigger] nbrs@[i as int]@[b]) < nodes_state@.len(),
            decreases nbrs@[i as int]@.len() - j,
        {
            if nbrs[i][j] >= nodes_state.len() {
                assert(!(nbrs@[i as int]@[j as int] < nodes_state@.len()));
                return false;
            }
            j = j + 1;
        }
        i = i + 1;
    }
    true
}

/// One round of a simulated spread. Every infective user turns to each of its
/// neighbors (`nbrs`, in the order of `infected_nodes`) with one coin per
/// neighbor (`infect`), and then stops where its own coin (`recover`) says
/// so. The users who were reached are infective from the next round on.
///
/// Lists that do not line up with the infective users, or that name a
/// neighbor who is no user, are refused and change nothing.
pub fn sir_round(
    nbrs: &Vec<Vec<usize>>,
    infect: &Vec<Vec<bool>>,
    recover: &Vec<bool>,
    nodes_state: &mut Vec<Condition>,
    edges_state: &mut Vec<(usize, usize)>,
    node_msg_source: &mut HashMap<usize, usize>,
) -> (ok: bool)
    ensures
        ok == coins_shaped(old(nodes_state)@, nbrs@, infect@, recover@),
        !ok ==> final(nodes_state)@ == old(nodes_state)@ && final(edges_state)@ == old(
            edges_state,
        )@ && final(node_msg_source)@ == old(node_msg_source)@,
        ok ==> {
            let infected = spec_infected(old(nodes_state)@, old(nodes_state)@.len());
            let out = spread_round(
                Spread {
                    states: old(nodes_state)@,
                    edges: old(edges_state)@,
                    sources: old(node_msg_source)@,
                    reached: Seq::empty(),
                },
                infected,
                nbrs@,
                infect@,
                recover@,
                infected.len(),
            );
            &&& final(nodes_state)@ == settle(out.states, out.reached, out.reached.len())
            &&& final(edges_state)@ == out.edges
            &&& final(node_msg_source)@ == out.sources
        },
{
    if !coins_are_shaped(nodes_state, nbrs, infect, recover) {
        return false;
    }
    let infected = infected_nodes(nodes_state);
    let ghost users = nodes_state@.len();
    let ghost seed = Spread {
        states: nodes_state@,
        edges: edges_state@,
        sources: node_msg_source@,
        reached: Seq::empty(),
    };
    let mut tbd_nodes: Vec<usize> = Vec::new();
    let mut i: usize = 0;
    while i < infected.len()
        invariant
            i <= infected@.len(),
            users == nodes_state@.len(),
            answers_shaped(infected@.len(), nbrs@, infect@),
            recover@.len() == infected@.len(),
            forall|a: int| 0 <= a < infected@.len() ==> infected@[a] < users,
            forall|a: int, b: int|
                0 <= a < infected@.len() && 0 <= b < nbrs@[a]@.len() ==> (#[trigger] nbrs@[a]@[b])
                    < users,
            forall|a: int| 0 <= a < tbd_nodes@.len() ==> tbd_nodes@[a] < users,
            (Spread {
                states: nodes_state@,
                edges: edges_state@,
                sources: node_msg_source@,
                reached: tbd_nodes@,
            }) == spread_round(seed, infected@, nbrs@, infect@, recover@, i as nat),
        decreases infected@.len() - i,
    {
        let n = infected[i];
        let ghost before = Spread {
            states: nodes_state@,
            edges: edges_state@,
            sources: node_msg_source@,
            reached: tbd_nodes@,
        };
        let mut j: usize = 0;
        while j < nbrs[i].len()
            invariant
                i < infected@.len(),
                nbrs@.len() == infected@.len(),
                infect@.len() == infected@.len(),
                infect@[i as int]@.len() == nbrs@[i as int]@.len(),
                j <= nbrs@[i as int]@.len(),
                users == nodes_state@.len(),
                forall|b: int| 0 <= b < nbrs@[i as int]@.len() ==> (#[trigger] nbrs@[i as int]@[b]) < users,
                forall|a: int| 0 <= a < tbd_nodes@.len() ==> tbd_nodes@[a] < users,
                (Spread {
                    states: nodes_state@,
                    edges: edges_state@,
                    sources: node_msg_source@,
                    reached: tbd_nodes@,
                }) == spread_from(before, n, nbrs@[i as int]@, infect@[i as int]@, j as nat),
            decreases nbrs@[i as int]@.len() - j,
        {
            let nbr = nbrs[i][j];
            let coin = infect[i][j];
            assert(nbrs@[i as int]@[j as int] < users);
            let mut is_infected = false;
            if nodes_state[nbr] == Condition::Susceptible {
                if coin {
                    tbd_nodes.push(nbr);
                    is_infected = true;
                }
            } else {
                if vec_edge_exists(&true, edges_state, nbr, n) {
                    is_infected = coin;
                }
            }
            if is_infected && vec_edge_exists(&true, edges_state, n, nbr) {
                edges_state.push((n, nbr));
                if !node_msg_source.contains_key(&nbr) {
                    node_msg_source.insert(nbr, n);
                }
            }
            j = j + 1;
        }
        if recover[i] {
            nodes_state.set(n, Condition::Recovered);
        }
        i = i + 1;
    }
    let ghost out = Spread {
        states: nodes_state@,
        edges: edges_state@,
        sources: node_msg_source@,
        reached: tbd_nodes@,
    };
    let mut k: usize = 0;
    while k < tbd_nodes.len()
        invariant
            k <= tbd_nodes@.len(),
            users == nodes_state@.len(),
            forall|a: int| 0 <= a < tbd_nodes@.len() ==> tbd_nodes@[a] < users,
            nodes_state@ == settle(out.states, tbd_nodes@, k as nat),
        decreases tbd_nodes@.len() - k,
    {
        nodes_state.set(tbd_nodes[k], Condition::Infective);
        k = k + 1;
    }
    true
}

} // verus!
