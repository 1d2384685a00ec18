//! What holds of every trace.

use crate::db::db_nbr::neighbors_of;
use crate::db::World;
use crate::message::messaging::{packet_sealed, Edge, MsgPacket};
use crate::tool::algos::{spec_next_key, spec_proc_tag_gen, spec_tk_gen};
use crate::trace::state::{
    count_hits, expand_frontier, expand_member, first_hit, lemma_advance_keeps_distinct,
    round_keys_known, spec_advance, spec_parent, spec_round, spec_start, Growth, RoundView,
    TraceError, TraceView,
};
use crate::trace::traceback::{
    confirmed_nodes, spec_backward_candidates, spec_candidate, spec_forward_candidates,
    world_backward_nbrs, world_child, world_children, world_frontier_nbrs, world_hit_lists,
    world_hits, world_parent, world_step, world_trace, CandidateView, Direction, SearchNode,
};
use vstd::prelude::*;

verus! {

/// Whether no hop to or from `node` left a tag of `message` in `w`: none of
/// the backward candidates of `node` and none of its forward candidates is
/// confirmed.
pub open spec fn unrecorded(w: World, message: Seq<char>, node: SearchNode) -> bool {
    let nbrs = neighbors_of(w.nbrs, node.uid);
    &&& forall|j: int|
        0 <= j < nbrs.len() ==> !w.tags.contains(
            (#[trigger] spec_candidate(
                Direction::Backward,
                node,
                nbrs[j],
                w.keys[nbrs[j]],
                message,
            )).tag,
        )
    &&& forall|j: int|
        0 <= j < nbrs.len() ==> !w.tags.contains(
            (#[trigger] spec_candidate(
                Direction::Forward,
                node,
                nbrs[j],
                w.keys[node.uid],
                message,
            )).tag,
        )
}

/// Among answers that are all `false` there is no first `true`, and none is
/// counted.
proof fn lemma_no_hit(hits: Seq<bool>, n: nat)
    requires
        n <= hits.len(),
        forall|j: int| 0 <= j < hits.len() ==> !hits[j],
    ensures
        first_hit(hits, n) is None,
        count_hits(hits, n) == 0,
    decreases n,
{
    if n > 0 {
        lemma_no_hit(hits, (n - 1) as nat);
    }
}

/// A frontier member without a confirmed candidate adds nothing.
proof fn lemma_member_without_hit(
    acc: Growth,
    known: Seq<SearchNode>,
    sender: u32,
    cands: Seq<CandidateView>,
    hits: Seq<bool>,
    n: nat,
)
    requires
        n <= hits.len(),
        forall|j: int| 0 <= j < hits.len() ==> !hits[j],
    ensures
        expand_member(acc, known, sender, cands, hits, n) == acc,
    decreases n,
{
    if n > 0 {
        lemma_member_without_hit(acc, known, sender, cands, hits, (n - 1) as nat);
    }
}

/// A forged report traces nothing. Where the reported tag key was never
/// issued to the reporter (no hop to or from the reported node left a tag
/// in the index), the search ends after one round with no edge; the one other
/// outcome is that the round is given up for a missing identity key.
pub proof fn lemma_forged_report_yields_no_edge(
    w: World,
    message: Seq<char>,
    node: SearchNode,
    budget: nat,
)
    requires
        budget >= 1,
        unrecorded(w, message, node),
    ensures
        match world_trace(w, spec_start(message, node), budget) {
            Ok(end) => end.path.len() == 0 && end.visited == seq![node] && !end.ambiguous,
            Err(e) => e == TraceError::MissingIdentityKey,
        },
{
    let state = spec_start(message, node);
    let nbrs = neighbors_of(w.nbrs, node.uid);
    let backward_nbrs = world_backward_nbrs(w, state);
    let frontier_nbrs = world_frontier_nbrs(w, state);
    assert(backward_nbrs == nbrs);
    assert(frontier_nbrs[0] == nbrs);
    if round_keys_known(state, backward_nbrs, frontier_nbrs, w.keys) {
        let round = spec_round(state, backward_nbrs, frontier_nbrs, w.keys);
        let backward_hits = world_hits(w, round.backward);
        let forward_hits = world_hit_lists(w, round.forward);
        assert forall|j: int| 0 <= j < backward_hits.len() implies !backward_hits[j] by {
            assert(round.backward[j] == spec_candidate(
                Direction::Backward,
                node,
                nbrs[j],
                w.keys[nbrs[j]],
                message,
            ));
        }
        assert forall|j: int| 0 <= j < forward_hits[0].len() implies !forward_hits[0][j] by {
            assert(round.forward[0][j] == spec_candidate(
                Direction::Forward,
                node,
                nbrs[j],
                w.keys[node.uid],
                message,
            ));
        }
        lemma_no_hit(backward_hits, backward_hits.len());
        let known = state.visited + state.frontier;
        let seed = Growth { path: state.path, next: Seq::empty() };
        lemma_member_without_hit(
            seed,
            known,
            node.uid,
            round.forward[0],
            forward_hits[0],
            round.forward[0].len(),
        );
        assert(expand_frontier(seed, known, state.frontier, round.forward, forward_hits, 0)
            == seed);
        assert(expand_frontier(seed, known, state.frontier, round.forward, forward_hits, 1)
            == seed);
        let after = spec_advance(state, round, backward_hits, forward_hits);
        assert(after.visited =~= seq![node]);
        assert(after.done());
        assert(world_trace(w, after, (budget - 1) as nat) == Ok::<TraceView, TraceError>(after));
    }
}

/// No node is expanded forward twice, however long the search runs: where the
/// visited nodes and the frontier of `state` hold no node twice, neither do
/// those of the state in which the search ends.
pub proof fn lemma_trace_keeps_distinct(w: World, state: TraceView, budget: nat)
    requires
        state.distinct(),
    ensures
        world_trace(w, state, budget) matches Ok(end) ==> end.distinct(),
    decreases budget,
{
    if !state.done() && budget > 0 {
        if let Ok(after) = world_step(w, state) {
            let round = spec_round(
                state,
                world_backward_nbrs(w, state),
                world_frontier_nbrs(w, state),
                w.keys,
            );
            lemma_advance_keeps_distinct(
                state,
                round,
                world_hits(w, round.backward),
                world_hit_lists(w, round.forward),
            );
            lemma_trace_keeps_distinct(w, after, (budget - 1) as nat);
        }
    }
}

/// Whether the hop `e` left a tag of `message` in `w`: the trace tag of the
/// message on that edge, at some tag key, was written to the index.
pub open spec fn edge_recorded(w: World, message: Seq<char>, e: Edge) -> bool {
    exists|key: Seq<u8>|
        w.tags.contains(
            #[trigger] spec_proc_tag_gen(key, spec_tk_gen(w.keys[e.sid], e.rid), message),
        )
}

/// Whether every hop of `path` left a tag of `message` in `w`.
pub open spec fn path_recorded(w: World, message: Seq<char>, path: Seq<Edge>) -> bool {
    forall|i: int| 0 <= i < path.len() ==> edge_recorded(w, message, #[trigger] path[i])
}

/// The first `true` among the answers is a `true` among them.
proof fn lemma_first_hit_is_hit(hits: Seq<bool>, n: nat)
    requires
        n <= hits.len(),
    ensures
        first_hit(hits, n) matches Some(i) ==> 0 <= i < n && hits[i],
    decreases n,
{
    if n > 0 {
        lemma_first_hit_is_hit(hits, (n - 1) as nat);
    }
}

/// Expanding one frontier member adds recorded edges only, where each of its
/// confirmed candidates stands for a recorded edge.
proof fn lemma_member_recorded(
    w: World,
    message: Seq<char>,
    acc: Growth,
    known: Seq<SearchNode>,
    sender: u32,
    cands: Seq<CandidateView>,
    hits: Seq<bool>,
    n: nat,
)
    requires
        n <= cands.len(),
        path_recorded(w, message, acc.path),
        forall|j: int|
            0 <= j < cands.len() && #[trigger] hits[j] ==> edge_recorded(
                w,
                message,
                Edge { sid: sender, rid: cands[j].node.uid },
            ),
    ensures
        path_recorded(w, message, expand_member(acc, known, sender, cands, hits, n).path),
    decreases n,
{
    if n > 0 {
        lemma_member_recorded(w, message, acc, known, sender, cands, hits, (n - 1) as nat);
        let prev = expand_member(acc, known, sender, cands, hits, (n - 1) as nat);
        if hits[n - 1] {
            let e = Edge { sid: sender, rid: cands[n - 1].node.uid };
            assert(edge_recorded(w, message, e));
            let path = prev.path.push(e);
            assert forall|i: int| 0 <= i < path.len() implies edge_recorded(
                w,
                message,
                #[trigger] path[i],
            ) by {
                if i < prev.path.len() {
                    assert(path[i] == prev.path[i]);
                }
            }
        }
    }
}

/// Expanding the frontier against `w` adds recorded edges only.
proof fn lemma_frontier_recorded(
    w: World,
    state: TraceView,
    acc: Growth,
    round: RoundView,
    m: nat,
)
    requires
        m <= state.frontier.len(),
        round == spec_round(
            state,
            world_backward_nbrs(w, state),
            world_frontier_nbrs(w, state),
            w.keys,
        ),
        path_recorded(w, state.message, acc.path),
    ensures
        path_recorded(
            w,
            state.message,
            expand_frontier(
                acc,
                state.visited + state.frontier,
                state.frontier,
                round.forward,
                world_hit_lists(w, round.forward),
                m,
            ).path,
        ),
    decreases m,
{
    if m > 0 {
        lemma_frontier_recorded(w, state, acc, round, (m - 1) as nat);
        let known = state.visited + state.frontier;
        let hits = world_hit_lists(w, round.forward);
        let prev = expand_frontier(acc, known, state.frontier, round.forward, hits, (m - 1) as nat);
        let member = state.frontier[m - 1];
        let nbrs = world_frontier_nbrs(w, state)[m - 1];
        let cands = round.forward[m - 1];
        assert forall|j: int| 0 <= j < cands.len() && #[trigger] hits[m - 1][j] implies edge_recorded(
            w,
            state.message,
            Edge { sid: member.uid, rid: cands[j].node.uid },
        ) by {
            let c = spec_candidate(
                Direction::Forward,
                member,
                nbrs[j],
                w.keys[member.uid],
                state.message,
            );
            assert(cands[j] == c);
            assert(hits[m - 1] == world_hits(w, cands));
            assert(w.tags.contains(cands[j].tag));
            let e = Edge { sid: member.uid, rid: cands[j].node.uid };
            assert(w.tags.contains(
                spec_proc_tag_gen(
                    c.node.key,
                    spec_tk_gen(w.keys[e.sid], e.rid),
                    state.message,
                ),
            ));
        }
        lemma_member_recorded(
            w,
            state.message,
            prev,
            known,
            member.uid,
            cands,
            hits[m - 1],
            cands.len(),
        );
    }
}

/// One round adds confirmed edges only: where every edge of the path left a
/// tag in the index before the round, every edge does after it.
pub proof fn lemma_step_keeps_recorded(w: World, state: TraceView)
    requires
        path_recorded(w, state.message, state.path),
    ensures
        world_step(w, state) matches Ok(after) ==> after.message == state.message
            && path_recorded(w, state.message, after.path),
{
    if let Ok(after) = world_step(w, state) {
        let backward_nbrs = world_backward_nbrs(w, state);
        let round = spec_round(state, backward_nbrs, world_frontier_nbrs(w, state), w.keys);
        let backward_hits = world_hits(w, round.backward);
        let parent = spec_parent(state, round, backward_hits);
        let path = match parent {
            Some(p) => state.path.push(Edge { sid: p.uid, rid: state.backward->0.uid }),
            None => state.path,
        };
        if let Some(p) = parent {
            lemma_first_hit_is_hit(backward_hits, backward_hits.len());
            let i = first_hit(backward_hits, backward_hits.len())->0;
            let b = state.backward->0;
            let c = spec_candidate(
                Direction::Backward,
                b,
                backward_nbrs[i],
                w.keys[backward_nbrs[i]],
                state.message,
            );
            assert(round.backward[i] == c);
            let e = Edge { sid: p.uid, rid: b.uid };
            assert(w.tags.contains(
                spec_proc_tag_gen(b.key, spec_tk_gen(w.keys[e.sid], e.rid), state.message),
            ));
            assert(edge_recorded(w, state.message, e));
            assert forall|k: int| 0 <= k < path.len() implies edge_recorded(
                w,
                state.message,
                #[trigger] path[k],
            ) by {
                if k < state.path.len() {
                    assert(path[k] == state.path[k]);
                }
            }
        }
        lemma_frontier_recorded(
            w,
            state,
            Growth { path, next: Seq::empty() },
            round,
            state.frontier.len(),
        );
    }
}

/// Every edge that a trace returns was confirmed: it left a tag of the
/// reported message in the index.
pub proof fn lemma_traced_edges_recorded(w: World, state: TraceView, budget: nat)
    requires
        path_recorded(w, state.message, state.path),
    ensures
        world_trace(w, state, budget) matches Ok(end) ==> path_recorded(
            w,
            state.message,
            end.path,
        ),
    decreases budget,
{
    if !state.done() && budget > 0 {
        if let Ok(after) = world_step(w, state) {
            lemma_step_keeps_recorded(w, state);
            lemma_traced_edges_recorded(w, after, (budget - 1) as nat);
        }
    }
}

/// Whether the backward chain of `state` follows, from `start`, the senders
/// that `w` confirms: each node of the chain is followed by its confirmed
/// sender, and where the chain has ended its last node has none.
pub open spec fn chain_follows(w: World, state: TraceView, start: SearchNode) -> bool {
    &&& state.chain.len() >= 1
    &&& state.chain[0] == start
    &&& forall|i: int|
        0 <= i < state.chain.len() - 1 ==> world_parent(w, state.message, #[trigger] state.chain[i])
            == Some(state.chain[i + 1])
    &&& match state.backward {
        Some(b) => b == state.chain.last(),
        None => world_parent(w, state.message, state.chain.last()) is None,
    }
}

/// Whether nothing that `w` confirms was passed over so far: every node of
/// the backward chain, and every confirmed receiver of a visited node, is
/// visited or waits in the frontier.
pub open spec fn nothing_missed(w: World, state: TraceView) -> bool {
    &&& forall|i: int|
        0 <= i < state.chain.len() ==> (state.visited + state.frontier).contains(
            #[trigger] state.chain[i],
        )
    &&& forall|v: SearchNode, child: SearchNode|
        state.visited.contains(v) && #[trigger] world_child(w, state.message, v, child) ==> (
        state.visited + state.frontier).contains(child)
}

/// Expanding one frontier member drops nothing that was lined up, and leaves
/// the node of each confirmed candidate met or lined up.
proof fn lemma_member_covers(
    acc: Growth,
    known: Seq<SearchNode>,
    sender: u32,
    cands: Seq<CandidateView>,
    hits: Seq<bool>,
    n: nat,
)
    requires
        n <= cands.len(),
    ensures
        forall|x: SearchNode|
            acc.next.contains(x) ==> #[trigger] expand_member(
                acc,
                known,
                sender,
                cands,
                hits,
                n,
            ).next.contains(x),
        forall|j: int|
            0 <= j < n && hits[j] ==> known.contains((#[trigger] cands[j]).node) || expand_member(
                acc,
                known,
                sender,
                cands,
                hits,
                n,
            ).next.contains(cands[j].node),
    decreases n,
{
    if n > 0 {
        lemma_member_covers(acc, known, sender, cands, hits, (n - 1) as nat);
        let prev = expand_member(acc, known, sender, cands, hits, (n - 1) as nat);
        let out = expand_member(acc, known, sender, cands, hits, n);
        let c = cands[n - 1];
        assert forall|x: SearchNode| prev.next.contains(x) implies out.next.contains(x) by {
            if out != prev {
                let k = choose|k: int| 0 <= k < prev.next.len() && prev.next[k] == x;
                assert(out.next[k] == x);
            }
        }
        if hits[n - 1] && !known.contains(c.node) && !prev.next.contains(c.node) {
            assert(out.next[prev.next.len() as int] == c.node);
        }
    }
}

/// Expanding the frontier drops nothing that was lined up, and leaves the
/// node of each confirmed candidate of each member met or lined up.
proof fn lemma_frontier_covers(
    acc: Growth,
    known: Seq<SearchNode>,
    frontier: Seq<SearchNode>,
    cands: Seq<Seq<CandidateView>>,
    hits: Seq<Seq<bool>>,
    m: nat,
)
    requires
        m <= cands.len(),
    ensures
        forall|x: SearchNode|
            acc.next.contains(x) ==> #[trigger] expand_frontier(
                acc,
                known,
                frontier,
                cands,
                hits,
                m,
            ).next.contains(x),
        forall|i: int, j: int|
            0 <= i < m && 0 <= j < cands[i].len() && hits[i][j] ==> known.contains(
                (#[trigger] cands[i][j]).node,
            ) || expand_frontier(acc, known, frontier, cands, hits, m).next.contains(
                cands[i][j].node,
            ),
    decreases m,
{
    if m > 0 {
        lemma_frontier_covers(acc, known, frontier, cands, hits, (m - 1) as nat);
        let prev = expand_frontier(acc, known, frontier, cands, hits, (m - 1) as nat);
        lemma_member_covers(
            prev,
            known,
            frontier[m - 1].uid,
            cands[m - 1],
            hits[m - 1],
            cands[m - 1].len(),
        );
    }
}

/// One round passes nothing over and keeps to the chain: what it confirms is
/// visited or lined up when it ends.
pub proof fn lemma_step_misses_nothing(w: World, state: TraceView, start: SearchNode)
    requires
        chain_follows(w, state, start),
        nothing_missed(w, state),
    ensures
        world_step(w, state) matches Ok(after) ==> chain_follows(w, after, start)
            && nothing_missed(w, after),
{
    if let Ok(after) = world_step(w, state) {
        let backward_nbrs = world_backward_nbrs(w, state);
        let round = spec_round(state, backward_nbrs, world_frontier_nbrs(w, state), w.keys);
        let backward_hits = world_hits(w, round.backward);
        let forward_hits = world_hit_lists(w, round.forward);
        let parent = spec_parent(state, round, backward_hits);
        let known = state.visited + state.frontier;
        let path = match parent {
            Some(p) => state.path.push(Edge { sid: p.uid, rid: state.backward->0.uid }),
            None => state.path,
        };
        let seed = Growth { path, next: Seq::empty() };
        let grown = expand_frontier(
            seed,
            known,
            state.frontier,
            round.forward,
            forward_hits,
            state.frontier.len(),
        );
        lemma_frontier_covers(
            seed,
            known,
            state.frontier,
            round.forward,
            forward_hits,
            state.frontier.len(),
        );
        let all = after.visited + after.frontier;
        assert(after.visited == known);
        // whatever was met before the round, or lined up in it, is met after it
        assert forall|x: SearchNode| known.contains(x) || grown.next.contains(x) implies all.contains(
            x,
        ) by {
            if known.contains(x) {
                let k = choose|k: int| 0 <= k < known.len() && known[k] == x;
                assert(all[k] == x);
            } else {
                let k = choose|k: int| 0 <= k < grown.next.len() && grown.next[k] == x;
                assert(after.frontier[k] == x);
                assert(all[known.len() + k] == x);
            }
        }
        // the chain
        if state.backward is Some {
            let b = state.backward->0;
            assert(round.backward == spec_backward_candidates(
                b,
                neighbors_of(w.nbrs, b.uid),
                w.keys,
                state.message,
            ));
            assert(parent == world_parent(w, state.message, b));
        }
        if let Some(p) = parent {
            assert(after.chain == state.chain.push(p));
            assert forall|i: int| 0 <= i < after.chain.len() - 1 implies world_parent(
                w,
                after.message,
                #[trigger] after.chain[i],
            ) == Some(after.chain[i + 1]) by {
                if i < state.chain.len() - 1 {
                    assert(after.chain[i] == state.chain[i]);
                    assert(after.chain[i + 1] == state.chain[i + 1]);
                }
            }
            if !(known.contains(p) || grown.next.contains(p)) {
                assert(after.frontier[grown.next.len() as int] == p);
                assert(all[(known.len() + grown.next.len()) as int] == p);
            }
            assert(all.contains(p));
        }
        assert forall|i: int| 0 <= i < after.chain.len() implies all.contains(
            #[trigger] after.chain[i],
        ) by {
            if i < state.chain.len() {
                assert(after.chain[i] == state.chain[i]);
                assert(known.contains(state.chain[i]));
            }
        }
        // the receivers
        assert forall|v: SearchNode, child: SearchNode|
            after.visited.contains(v) && #[trigger] world_child(
                w,
                after.message,
                v,
                child,
            ) implies all.contains(child) by {
            let k = choose|k: int| 0 <= k < known.len() && known[k] == v;
            if k < state.visited.len() {
                assert(state.visited[k] == v);
                assert(state.visited.contains(v));
                assert(known.contains(child));
            } else {
                let i = k - state.visited.len();
                assert(state.frontier[i] == v);
                let cands = spec_forward_candidates(
                    v,
                    neighbors_of(w.nbrs, v.uid),
                    w.keys,
                    state.message,
                );
                assert(round.forward[i] == cands);
                let j = choose|j: int|
                    0 <= j < cands.len() && w.tags.contains((#[trigger] cands[j]).tag)
                        && cands[j].node == child;
                assert(forward_hits[i] == world_hits(w, round.forward[i]));
                assert(forward_hits[i][j]);
                assert(round.forward[i][j].node == child);
                assert(known.contains(child) || grown.next.contains(child));
            }
        }
    }
}

/// A finished trace has missed nothing. Its backward chain leads from the
/// reported node from sender to confirmed sender until a node has none; and
/// the visited nodes hold the chain and, with every node, each of its
/// confirmed receivers. So a chain or a tree that is recorded in full is
/// found in full.
pub proof fn lemma_trace_misses_nothing(
    w: World,
    state: TraceView,
    start: SearchNode,
    budget: nat,
)
    requires
        chain_follows(w, state, start),
        nothing_missed(w, state),
    ensures
        world_trace(w, state, budget) matches Ok(end) ==> {
            &&& end.done()
            &&& chain_follows(w, end, start)
            &&& forall|i: int|
                0 <= i < end.chain.len() ==> end.visited.contains(#[trigger] end.chain[i])
            &&& forall|v: SearchNode, child: SearchNode|
                end.visited.contains(v) && #[trigger] world_child(w, end.message, v, child)
                    ==> end.visited.contains(child)
        },
    decreases budget,
{
    if state.done() {
        assert(state.visited + state.frontier =~= state.visited);
    } else if budget > 0 {
        if let Ok(after) = world_step(w, state) {
            lemma_step_misses_nothing(w, state, start);
            lemma_trace_misses_nothing(w, after, start, (budget - 1) as nat);
        }
    }
}

/// The state in which a trace starts has missed nothing yet.
pub proof fn lemma_start_misses_nothing(w: World, message: Seq<char>, start: SearchNode)
    ensures
        chain_follows(w, spec_start(message, start), start),
        nothing_missed(w, spec_start(message, start)),
{
    let state = spec_start(message, start);
    assert((state.visited + state.frontier)[0] == start);
}

/// A trace ends on the message it started on.
pub proof fn lemma_trace_keeps_message(w: World, state: TraceView, budget: nat)
    ensures
        world_trace(w, state, budget) matches Ok(end) ==> end.message == state.message,
    decreases budget,
{
    if !state.done() && budget > 0 {
        if let Ok(after) = world_step(w, state) {
            lemma_trace_keeps_message(w, after, (budget - 1) as nat);
        }
    }
}

/// Whether `x` was reached rightly: it is a node of the backward chain, or
/// `w` confirms it as a receiver of a visited node.
pub open spec fn reached(w: World, state: TraceView, x: SearchNode) -> bool {
    state.chain.contains(x) || exists|v: SearchNode|
        state.visited.contains(v) && #[trigger] world_child(w, state.message, v, x)
}

/// Whether every node that is visited or waits in the frontier was reached
/// rightly.
pub open spec fn nothing_invented(w: World, state: TraceView) -> bool {
    forall|i: int|
        0 <= i < (state.visited + state.frontier).len() ==> reached(
            w,
            state,
            #[trigger] (state.visited + state.frontier)[i],
        )
}

/// Whether a confirmed candidate among the first `n` of `cands` leads to `x`.
pub open spec fn confirmed_among(
    cands: Seq<CandidateView>,
    hits: Seq<bool>,
    n: nat,
    x: SearchNode,
) -> bool {
    exists|j: int| 0 <= j < n && hits[j] && (#[trigger] cands[j]).node == x
}

/// Whether a confirmed candidate of one of the first `m` frontier members
/// leads to `x`.
pub open spec fn confirmed_within(
    cands: Seq<Seq<CandidateView>>,
    hits: Seq<Seq<bool>>,
    m: nat,
    x: SearchNode,
) -> bool {
    exists|i: int| 0 <= i < m && #[trigger] confirmed_among(cands[i], hits[i], cands[i].len(), x)
}

/// What expanding one frontier member lines up is the node of one of its
/// confirmed candidates.
proof fn lemma_member_sourced(
    acc: Growth,
    known: Seq<SearchNode>,
    sender: u32,
    cands: Seq<CandidateView>,
    hits: Seq<bool>,
    n: nat,
)
    requires
        n <= cands.len(),
    ensures
        forall|x: SearchNode|
            #[trigger] expand_member(acc, known, sender, cands, hits, n).next.contains(x)
                ==> acc.next.contains(x) || confirmed_among(cands, hits, n, x),
    decreases n,
{
    if n > 0 {
        lemma_member_sourced(acc, known, sender, cands, hits, (n - 1) as nat);
        let prev = expand_member(acc, known, sender, cands, hits, (n - 1) as nat);
        let out = expand_member(acc, known, sender, cands, hits, n);
        assert forall|x: SearchNode| #[trigger] out.next.contains(x) implies acc.next.contains(x)
            || confirmed_among(cands, hits, n, x) by {
            let k = choose|k: int| 0 <= k < out.next.len() && out.next[k] == x;
            if k < prev.next.len() {
                assert(prev.next[k] == x);
                assert(prev.next.contains(x));
                if confirmed_among(cands, hits, (n - 1) as nat, x) {
                    let j = choose|j: int|
                        0 <= j < n - 1 && hits[j] && (#[trigger] cands[j]).node == x;
                    assert(hits[j] && cands[j].node == x);
                }
            } else {
                assert(hits[n - 1] && cands[n - 1].node == x);
            }
        }
    }
}

/// What expanding the frontier lines up is the node of a confirmed candidate
/// of one of its members.
proof fn lemma_frontier_sourced(
    acc: Growth,
    known: Seq<SearchNode>,
    frontier: Seq<SearchNode>,
    cands: Seq<Seq<CandidateView>>,
    hits: Seq<Seq<bool>>,
    m: nat,
)
    requires
        m <= cands.len(),
    ensures
        forall|x: SearchNode|
            #[trigger] expand_frontier(acc, known, frontier, cands, hits, m).next.contains(x)
                ==> acc.next.contains(x) || confirmed_within(cands, hits, m, x),
    decreases m,
{
    if m > 0 {
        lemma_frontier_sourced(acc, known, frontier, cands, hits, (m - 1) as nat);
        let prev = expand_frontier(acc, known, frontier, cands, hits, (m - 1) as nat);
        let out = expand_frontier(acc, known, frontier, cands, hits, m);
        lemma_member_sourced(
            prev,
            known,
            frontier[m - 1].uid,
            cands[m - 1],
            hits[m - 1],
            cands[m - 1].len(),
        );
        assert forall|x: SearchNode| #[trigger] out.next.contains(x) implies acc.next.contains(x)
            || confirmed_within(cands, hits, m, x) by {
            if prev.next.contains(x) {
                if confirmed_within(cands, hits, (m - 1) as nat, x) {
                    let i = choose|i: int|
                        0 <= i < m - 1 && #[trigger] confirmed_among(
                            cands[i],
                            hits[i],
                            cands[i].len(),
                            x,
                        );
                    assert(confirmed_among(cands[i], hits[i], cands[i].len(), x));
                }
            } else {
                assert(confirmed_among(cands[m - 1], hits[m - 1], cands[m - 1].len(), x));
            }
        }
    }
}

/// One round invents nothing: what it lines up is the confirmed sender of the
/// backward node or a confirmed receiver of a frontier member.
pub proof fn lemma_step_invents_nothing(w: World, state: TraceView)
    requires
        nothing_invented(w, state),
    ensures
        world_step(w, state) matches Ok(after) ==> nothing_invented(w, after),
{
    if let Ok(after) = world_step(w, state) {
        let backward_nbrs = world_backward_nbrs(w, state);
        let round = spec_round(state, backward_nbrs, world_frontier_nbrs(w, state), w.keys);
        let backward_hits = world_hits(w, round.backward);
        let forward_hits = world_hit_lists(w, round.forward);
        let parent = spec_parent(state, round, backward_hits);
        let known = state.visited + state.frontier;
        let path = match parent {
            Some(p) => state.path.push(Edge { sid: p.uid, rid: state.backward->0.uid }),
            None => state.path,
        };
        let seed = Growth { path, next: Seq::empty() };
        let grown = expand_frontier(
            seed,
            known,
            state.frontier,
            round.forward,
            forward_hits,
            state.frontier.len(),
        );
        lemma_frontier_sourced(
            seed,
            known,
            state.frontier,
            round.forward,
            forward_hits,
            state.frontier.len(),
        );
        let all = after.visited + after.frontier;
        assert(after.visited == known);
        // the chain only grows, and so do the visited nodes
        assert forall|x: SearchNode| state.chain.contains(x) implies after.chain.contains(x) by {
            let k = choose|k: int| 0 <= k < state.chain.len() && state.chain[k] == x;
            assert(after.chain[k] == x);
        }
        assert forall|v: SearchNode| state.visited.contains(v) implies after.visited.contains(
            v,
        ) by {
            let k = choose|k: int| 0 <= k < state.visited.len() && state.visited[k] == v;
            assert(known[k] == v);
        }
        assert forall|i: int| 0 <= i < all.len() implies reached(w, after, #[trigger] all[i]) by {
            let x = all[i];
            if i < known.len() {
                assert(known[i] == x);
                assert(reached(w, state, x));
                if !state.chain.contains(x) {
                    let v = choose|v: SearchNode|
                        state.visited.contains(v) && #[trigger] world_child(
                            w,
                            state.message,
                            v,
                            x,
                        );
                    assert(after.visited.contains(v) && world_child(w, after.message, v, x));
                }
            } else {
                let k = i - known.len();
                assert(after.frontier[k] == x);
                if k < grown.next.len() {
                    assert(grown.next[k] == x);
                    assert(grown.next.contains(x));
                    assert(confirmed_within(
                        round.forward,
                        forward_hits,
                        state.frontier.len(),
                        x,
                    ));
                    let m = choose|m: int|
                        0 <= m < state.frontier.len() && #[trigger] confirmed_among(
                            round.forward[m],
                            forward_hits[m],
                            round.forward[m].len(),
                            x,
                        );
                    let j = choose|j: int|
                        0 <= j < round.forward[m].len() && forward_hits[m][j] && (
                        #[trigger] round.forward[m][j]).node == x;
                    let v = state.frontier[m];
                    assert(known[state.visited.len() + m] == v);
                    assert(after.visited.contains(v));
                    let cands = spec_forward_candidates(
                        v,
                        neighbors_of(w.nbrs, v.uid),
                        w.keys,
                        state.message,
                    );
                    assert(round.forward[m] == cands);
                    assert(forward_hits[m] == world_hits(w, round.forward[m]));
                    assert(w.tags.contains(cands[j].tag) && cands[j].node == x);
                    assert(world_child(w, after.message, v, x));
                } else {
                    // the confirmed sender of the backward node
                    assert(parent == Some(x));
                    assert(after.chain[state.chain.len() as int] == x);
                }
            }
        }
    }
}

/// A finished trace has invented nothing: every visited node is a node of
/// the backward chain or a confirmed receiver of a visited node.
pub proof fn lemma_trace_invents_nothing(w: World, state: TraceView, budget: nat)
    requires
        nothing_invented(w, state),
    ensures
        world_trace(w, state, budget) matches Ok(end) ==> forall|i: int|
            0 <= i < end.visited.len() ==> reached(w, end, #[trigger] end.visited[i]),
    decreases budget,
{
    if state.done() {
        assert(state.visited + state.frontier =~= state.visited);
    } else if budget > 0 {
        if let Ok(after) = world_step(w, state) {
            lemma_step_invents_nothing(w, state);
            lemma_trace_invents_nothing(w, after, (budget - 1) as nat);
        }
    }
}

/// The state in which a trace starts has invented nothing yet.
pub proof fn lemma_start_invents_nothing(w: World, message: Seq<char>, start: SearchNode)
    ensures
        nothing_invented(w, spec_start(message, start)),
{
    let state = spec_start(message, start);
    assert(state.chain[0] == start);
    assert(state.visited + state.frontier =~= seq![start]);
}

/// Whether the edges of `state` are counted by its nodes: every node but the
/// first came with an edge, and only the nodes of the backward chain can have
/// come with a second one.
pub open spec fn edges_counted(state: TraceView) -> bool {
    &&& state.chain.len() >= 1
    &&& state.visited.len() + state.frontier.len() <= state.path.len() + 1
    &&& state.path.len() + 2 <= state.visited.len() + state.frontier.len() + state.chain.len()
}

/// Expanding one frontier member adds as many edges as it lines up nodes.
proof fn lemma_member_counts(
    acc: Growth,
    known: Seq<SearchNode>,
    sender: u32,
    cands: Seq<CandidateView>,
    hits: Seq<bool>,
    n: nat,
)
    ensures
        expand_member(acc, known, sender, cands, hits, n).path.len() - acc.path.len()
            == expand_member(acc, known, sender, cands, hits, n).next.len() - acc.next.len(),
        expand_member(acc, known, sender, cands, hits, n).next.len() >= acc.next.len(),
    decreases n,
{
    if n > 0 {
        lemma_member_counts(acc, known, sender, cands, hits, (n - 1) as nat);
    }
}

/// Expanding the frontier adds as many edges as it lines up nodes.
proof fn lemma_frontier_counts(
    acc: Growth,
    known: Seq<SearchNode>,
    frontier: Seq<SearchNode>,
    cands: Seq<Seq<CandidateView>>,
    hits: Seq<Seq<bool>>,
    m: nat,
)
    ensures
        expand_frontier(acc, known, frontier, cands, hits, m).path.len() - acc.path.len()
            == expand_frontier(acc, known, frontier, cands, hits, m).next.len() - acc.next.len(),
        expand_frontier(acc, known, frontier, cands, hits, m).next.len() >= acc.next.len(),
    decreases m,
{
    if m > 0 {
        lemma_frontier_counts(acc, known, frontier, cands, hits, (m - 1) as nat);
        let prev = expand_frontier(acc, known, frontier, cands, hits, (m - 1) as nat);
        lemma_member_counts(
            prev,
            known,
            frontier[m - 1].uid,
            cands[m - 1],
            hits[m - 1],
            cands[m - 1].len(),
        );
    }
}

/// One round adds one edge with every node that it lines up, and at most one
/// more, for the backward chain.
pub proof fn lemma_advance_counts(
    state: TraceView,
    round: RoundView,
    backward_hits: Seq<bool>,
    forward_hits: Seq<Seq<bool>>,
)
    requires
        edges_counted(state),
    ensures
        edges_counted(spec_advance(state, round, backward_hits, forward_hits)),
{
    let parent = spec_parent(state, round, backward_hits);
    let known = state.visited + state.frontier;
    let path = match parent {
        Some(p) => state.path.push(Edge { sid: p.uid, rid: state.backward->0.uid }),
        None => state.path,
    };
    let seed = Growth { path, next: Seq::empty() };
    lemma_frontier_counts(
        seed,
        known,
        state.frontier,
        round.forward,
        forward_hits,
        state.frontier.len(),
    );
}

/// The work of a trace is bounded by its nodes, not by its paths: a finished
/// trace has at most one edge for every visited node but the first, and one
/// more for every node of the backward chain but the first.
pub proof fn lemma_trace_counts(w: World, state: TraceView, budget: nat)
    requires
        edges_counted(state),
    ensures
        world_trace(w, state, budget) matches Ok(end) ==> end.visited.len() <= end.path.len() + 1
            && end.path.len() + 2 <= end.visited.len() + end.chain.len(),
    decreases budget,
{
    if !state.done() && budget > 0 {
        if let Ok(after) = world_step(w, state) {
            let round = spec_round(
                state,
                world_backward_nbrs(w, state),
                world_frontier_nbrs(w, state),
                w.keys,
            );
            lemma_advance_counts(
                state,
                round,
                world_hits(w, round.backward),
                world_hit_lists(w, round.forward),
            );
            lemma_trace_counts(w, after, (budget - 1) as nat);
        }
    }
}

/// The confirmed nodes of a list of candidates are the nodes of its confirmed
/// candidates.
proof fn lemma_confirmed_nodes(w: World, cands: Seq<CandidateView>, n: nat, child: SearchNode)
    requires
        n <= cands.len(),
    ensures
        confirmed_nodes(w, cands, n).contains(child) <==> exists|j: int|
            0 <= j < n && w.tags.contains((#[trigger] cands[j]).tag) && cands[j].node == child,
    decreases n,
{
    if n > 0 {
        lemma_confirmed_nodes(w, cands, (n - 1) as nat, child);
        let before = confirmed_nodes(w, cands, (n - 1) as nat);
        let out = confirmed_nodes(w, cands, n);
        let c = cands[n - 1];
        if out.contains(child) {
            let k = choose|k: int| 0 <= k < out.len() && out[k] == child;
            if k < before.len() {
                assert(before[k] == child);
                assert(before.contains(child));
                let j = choose|j: int|
                    0 <= j < n - 1 && w.tags.contains((#[trigger] cands[j]).tag) && cands[j].node
                        == child;
                assert(w.tags.contains(cands[j].tag) && cands[j].node == child);
            } else {
                assert(w.tags.contains(c.tag) && c.node == child);
            }
        }
        if exists|j: int|
            0 <= j < n && w.tags.contains((#[trigger] cands[j]).tag) && cands[j].node == child {
            let j = choose|j: int|
                0 <= j < n && w.tags.contains((#[trigger] cands[j]).tag) && cands[j].node == child;
            if j < n - 1 {
                assert(before.contains(child));
                let k = choose|k: int| 0 <= k < before.len() && before[k] == child;
                assert(out[k] == child);
            } else {
                assert(out[before.len() as int] == child);
            }
        }
    }
}

/// The confirmed receivers of a node, as a forward search lists them, are
/// the nodes that `w` confirms as its receivers.
pub proof fn lemma_children_are_confirmed(
    w: World,
    message: Seq<char>,
    node: SearchNode,
    child: SearchNode,
)
    ensures
        world_children(w, message, node).contains(child) <==> world_child(w, message, node, child),
{
    let cands = spec_forward_candidates(node, neighbors_of(w.nbrs, node.uid), w.keys, message);
    lemma_confirmed_nodes(w, cands, cands.len(), child);
}

/// Whether `packet` is what the node `sender` sent to the user `rid` for
/// `message`, going by what `w` knows of the sender: it carries the message
/// over that edge, at the sender's key stepped one hop forward.
pub open spec fn sent_over(
    w: World,
    message: Seq<char>,
    sender: SearchNode,
    rid: u32,
    packet: MsgPacket,
) -> bool {
    let tk = spec_tk_gen(w.keys[sender.uid], rid);
    &&& packet.tag_key@ == spec_next_key(sender.key, tk)
    &&& packet_sealed(packet, message, tk)
}

/// Sending and tracing agree on the tag of a hop. The trace tag of a packet
/// is the tag of the forward candidate that the sender's node has for the
/// receiver, and of the backward candidate that the receiver's node has for
/// the sender; and the forward candidate leads to the receiver's node.
pub proof fn lemma_sent_tag_is_looked_for(
    w: World,
    message: Seq<char>,
    sender: SearchNode,
    rid: u32,
    packet: MsgPacket,
)
    requires
        sent_over(w, message, sender, rid, packet),
    ensures
        spec_candidate(Direction::Forward, sender, rid, w.keys[sender.uid], message)
            == (CandidateView {
            node: SearchNode { uid: rid, key: packet.tag_key@ },
            tag: packet.p_tag@,
        }),
        spec_candidate(
            Direction::Backward,
            SearchNode { uid: rid, key: packet.tag_key@ },
            sender.uid,
            w.keys[sender.uid],
            message,
        ).tag == packet.p_tag@,
{
}

/// A recorded hop is confirmed. Where the receiver is a neighbor of the
/// sender and the trace tag of the packet was written to the index, the
/// receiver's node is a confirmed receiver of the sender's node.
pub proof fn lemma_recorded_hop_is_confirmed(
    w: World,
    message: Seq<char>,
    sender: SearchNode,
    rid: u32,
    packet: MsgPacket,
)
    requires
        sent_over(w, message, sender, rid, packet),
        neighbors_of(w.nbrs, sender.uid).contains(rid),
        w.tags.contains(packet.p_tag@),
    ensures
        world_child(w, message, sender, SearchNode { uid: rid, key: packet.tag_key@ }),
{
    lemma_sent_tag_is_looked_for(w, message, sender, rid, packet);
    let nbrs = neighbors_of(w.nbrs, sender.uid);
    let cands = spec_forward_candidates(sender, nbrs, w.keys, message);
    let j = choose|j: int| 0 <= j < nbrs.len() && nbrs[j] == rid;
    assert(cands[j] == spec_candidate(
        Direction::Forward,
        sender,
        rid,
        w.keys[sender.uid],
        message,
    ));
}

/// Where an answer is `true`, there is a first `true`.
proof fn lemma_some_hit(hits: Seq<bool>, n: nat, j: int)
    requires
        0 <= j < n <= hits.len(),
        hits[j],
    ensures
        first_hit(hits, n) is Some,
    decreases n,
{
    if j < n - 1 {
        lemma_some_hit(hits, (n - 1) as nat, j);
    }
}

/// The backward chain does not end at a node whose sender is recorded. Where
/// the sender is a neighbor of the receiver and the trace tag of the packet
/// was written to the index, a sender is confirmed for the receiver's node.
pub proof fn lemma_recorded_sender_is_confirmed(
    w: World,
    message: Seq<char>,
    sender: SearchNode,
    rid: u32,
    packet: MsgPacket,
)
    requires
        sent_over(w, message, sender, rid, packet),
        neighbors_of(w.nbrs, rid).contains(sender.uid),
        w.tags.contains(packet.p_tag@),
    ensures
        world_parent(w, message, SearchNode { uid: rid, key: packet.tag_key@ }) is Some,
{
    lemma_sent_tag_is_looked_for(w, message, sender, rid, packet);
    let receiver = SearchNode { uid: rid, key: packet.tag_key@ };
    let nbrs = neighbors_of(w.nbrs, rid);
    let cands = spec_backward_candidates(receiver, nbrs, w.keys, message);
    let j = choose|j: int| 0 <= j < nbrs.len() && nbrs[j] == sender.uid;
    assert(cands[j] == spec_candidate(
        Direction::Backward,
        receiver,
        sender.uid,
        w.keys[sender.uid],
        message,
    ));
    let hits = world_hits(w, cands);
    assert(hits[j]);
    lemma_some_hit(hits, cands.len(), j);
}

} // verus!
