//! The traced edges that the confidence estimate reads.
//!
//! When the membership index may answer with false positives, a trace yields
//! more edges than the message took. The estimate weighs every node by the
//! ways in which it could have been reached falsely. It reads the trace as
//! two tables of edges, one for the backward chain and one for the forward
//! tree. This module holds the tables and everything the estimate asks of
//! them that is a matter of counting and ordering: the direction of an edge,
//! the children and parents of a node, and the order, deepest first, in
//! which the edges are weighed.

use vstd::prelude::*;

verus! {

/// The node that stands for "none": the start of a trace was reached from it.
pub const NO_NODE: usize = usize::MAX;

/// An edge that a trace found: the search stood at `from`, which it had
/// reached from `via`, and found `to`, in round `depth`.
#[derive(Clone, Copy, Debug, PartialEq, Eq, Structural)]
pub struct TracedEdge {
    pub from: usize,
    pub to: usize,
    pub depth: usize,
    pub via: usize,
}

/// Whether `edges` has an edge from `from` to `to`.
pub open spec fn has_key(edges: Seq<TracedEdge>, from: usize, to: usize) -> bool {
    exists|i: int| 0 <= i < edges.len() && edges[i].from == from && (#[trigger] edges[i]).to == to
}

/// Whether no two edges of `edges` run between the same nodes in the same
/// direction.
pub open spec fn keys_distinct(edges: Seq<TracedEdge>) -> bool {
    forall|i: int, j: int|
        0 <= i < j < edges.len() ==> !((#[trigger] edges[i]).from == (#[trigger] edges[j]).from
            && edges[i].to == edges[j].to)
}

/// The edge of `edges` turned round.
pub open spec fn reversed(e: TracedEdge) -> TracedEdge {
    TracedEdge { from: e.to, to: e.from, depth: e.depth, via: e.via }
}

/// The head of each edge of `edges`, in order.
pub open spec fn heads(edges: Seq<TracedEdge>) -> Seq<usize> {
    Seq::new(edges.len(), |i: int| edges[i].to)
}

/// The tail of each edge of `edges`, in order.
pub open spec fn tails(edges: Seq<TracedEdge>) -> Seq<usize> {
    Seq::new(edges.len(), |i: int| edges[i].from)
}

/// What a filter keeps of a list with one more element.
proof fn lemma_filter_push<A>(s: Seq<A>, x: A, pred: spec_fn(A) -> bool)
    ensures
        s.push(x).filter(pred) == if pred(x) {
            s.filter(pred).push(x)
        } else {
            s.filter(pred)
        },
{
    assert(s.push(x).drop_last() =~= s);
    reveal(Seq::filter);
}

/// The first edge of `edges` from `from` to `to`.
pub fn find_edge(edges: &Vec<TracedEdge>, from: usize, to: usize) -> (found: Option<TracedEdge>)
    ensures
        match found {
            Some(e) => e.from == from && e.to == to && edges@.contains(e),
            None => !has_key(edges@, from, to),
        },
        found is Some <==> has_key(edges@, from, to),
{
    let mut i: usize = 0;
    while i < edges.len()
        invariant
            i <= edges@.len(),
            forall|j: int| 0 <= j < i ==> !(edges@[j].from == from && (#[trigger] edges@[j]).to == to),
        decreases edges@.len() - i,
    {
        if edges[i].from == from && edges[i].to == to {
            assert(edges@[i as int].to == to);
            return Some(edges[i]);
        }
        i = i + 1;
    }
    None
}

/// Records `e` unless an edge between the same nodes in the same direction
/// is recorded already: the first record of an edge stands.
pub fn record_edge(edges: &mut Vec<TracedEdge>, e: TracedEdge) -> (added: bool)
    ensures
        added == !has_key(old(edges)@, e.from, e.to),
        final(edges)@ == if added {
            old(edges)@.push(e)
        } else {
            old(edges)@
        },
        keys_distinct(old(edges)@) ==> keys_distinct(final(edges)@),
{
    match find_edge(edges, e.from, e.to) {
        Some(_) => false,
        None => {
            edges.push(e);
            true
        },
    }
}

/// Recovers the direction of the forward tree: drops from `fwd` every edge
/// whose reverse is an edge of the backward chain `bwd`. The backward chain
/// decides the direction of an edge that both searches found.
pub fn drop_reversed(fwd: &Vec<TracedEdge>, bwd: &Vec<TracedEdge>) -> (kept: Vec<TracedEdge>)
    ensures
        kept@ == fwd@.filter(|e: TracedEdge| !has_key(bwd@, e.to, e.from)),
        keys_distinct(fwd@) ==> keys_distinct(kept@),
{
    let ghost keep = |e: TracedEdge| !has_key(bwd@, e.to, e.from);
    let mut kept: Vec<TracedEdge> = Vec::new();
    let mut i: usize = 0;
    assert(fwd@.subrange(0, 0).filter(keep) =~= Seq::<TracedEdge>::empty());
    while i < fwd.len()
        invariant
            i <= fwd@.len(),
            keep == (|e: TracedEdge| !has_key(bwd@, e.to, e.from)),
            kept@ == fwd@.subrange(0, i as int).filter(keep),
        decreases fwd@.len() - i,
    {
        let e = fwd[i];
        proof {
            assert(fwd@.subrange(0, i + 1) =~= fwd@.subrange(0, i as int).push(e));
            lemma_filter_push(fwd@.subrange(0, i as int), e, keep);
        }
        if find_edge(bwd, e.to, e.from).is_none() {
            kept.push(e);
        }
        i = i + 1;
    }
    assert(fwd@.subrange(0, fwd@.len() as int) =~= fwd@);
    proof {
        if keys_distinct(fwd@) {
            lemma_filter_keeps_distinct(fwd@, keep);
        }
    }
    kept
}

/// A filter keeps the order of what it keeps: the elements of the filtered
/// list are elements of the list at increasing places.
proof fn lemma_filter_places<A>(s: Seq<A>, pred: spec_fn(A) -> bool) -> (places: Seq<int>)
    ensures
        places.len() == s.filter(pred).len(),
        forall|k: int|
            0 <= k < places.len() ==> 0 <= #[trigger] places[k] < s.len() && s[places[k]]
                == s.filter(pred)[k],
        forall|k: int, l: int| 0 <= k < l < places.len() ==> places[k] < places[l],
    decreases s.len(),
{
    reveal(Seq::filter);
    if s.len() == 0 {
        Seq::empty()
    } else {
        let before = lemma_filter_places(s.drop_last(), pred);
        if pred(s.last()) {
            before.push(s.len() - 1)
        } else {
            before
        }
    }
}

/// What a filter keeps of a table with distinct keys has distinct keys.
proof fn lemma_filter_keeps_distinct(edges: Seq<TracedEdge>, pred: spec_fn(TracedEdge) -> bool)
    requires
        keys_distinct(edges),
    ensures
        keys_distinct(edges.filter(pred)),
{
    let places = lemma_filter_places(edges, pred);
    let kept = edges.filter(pred);
    assert forall|i: int, j: int| 0 <= i < j < kept.len() implies !((#[trigger] kept[i]).from
        == (#[trigger] kept[j]).from && kept[i].to == kept[j].to) by {
        assert(edges[places[i]] == kept[i]);
        assert(edges[places[j]] == kept[j]);
        assert(places[i] < places[j]);
    }
}

/// The whole traced graph in the direction of forwarding: the forward tree
/// `fwd`, followed by the reverse of every edge of the backward chain `bwd`
/// that the forward tree does not hold in that direction already.
pub fn merge_backward(fwd: &Vec<TracedEdge>, bwd: &Vec<TracedEdge>) -> (all: Vec<TracedEdge>)
    ensures
        all@ == fwd@ + bwd@.filter(|e: TracedEdge| !has_key(fwd@, e.to, e.from)).map_values(
            |e: TracedEdge| reversed(e),
        ),
{
    let ghost missing = |e: TracedEdge| !has_key(fwd@, e.to, e.from);
    let ghost turn = |e: TracedEdge| reversed(e);
    let mut all: Vec<TracedEdge> = Vec::new();
    let mut k: usize = 0;
    while k < fwd.len()
        invariant
            k <= fwd@.len(),
            all@ == fwd@.subrange(0, k as int),
        decreases fwd@.len() - k,
    {
        all.push(fwd[k]);
        k = k + 1;
    }
    assert(fwd@.subrange(0, fwd@.len() as int) =~= fwd@);
    let mut i: usize = 0;
    assert(bwd@.subrange(0, 0).filter(missing) =~= Seq::<TracedEdge>::empty());
    assert(all@ =~= fwd@ + bwd@.subrange(0, 0).filter(missing).map_values(turn));
    while i < bwd.len()
        invariant
            i <= bwd@.len(),
            missing == (|e: TracedEdge| !has_key(fwd@, e.to, e.from)),
            turn == (|e: TracedEdge| reversed(e)),
            all@ == fwd@ + bwd@.subrange(0, i as int).filter(missing).map_values(turn),
        decreases bwd@.len() - i,
    {
        let e = bwd[i];
        proof {
            assert(bwd@.subrange(0, i + 1) =~= bwd@.subrange(0, i as int).push(e));
            lemma_filter_push(bwd@.subrange(0, i as int), e, missing);
        }
        if find_edge(fwd, e.to, e.from).is_none() {
            let ghost before = bwd@.subrange(0, i as int).filter(missing);
            all.push(TracedEdge { from: e.to, to: e.from, depth: e.depth, via: e.via });
            assert(before.push(e).map_values(turn) =~= before.map_values(turn).push(reversed(e)));
            assert(all@ =~= fwd@ + before.push(e).map_values(turn));
        }
        i = i + 1;
    }
    assert(bwd@.subrange(0, bwd@.len() as int) =~= bwd@);
    all
}

/// The edges of `edges` that leave `node`.
pub open spec fn spec_out_edges(edges: Seq<TracedEdge>, node: usize) -> Seq<TracedEdge> {
    edges.filter(|e: TracedEdge| e.from == node)
}

/// The edges of `edges` that leave `node` and were found when `node` had
/// been reached from `via`.
pub open spec fn spec_out_edges_via(edges: Seq<TracedEdge>, node: usize, via: usize) -> Seq<
    TracedEdge,
> {
    edges.filter(|e: TracedEdge| e.from == node && e.via == via)
}

/// The edges of `edges` that arrive at `node`.
pub open spec fn spec_in_edges(edges: Seq<TracedEdge>, node: usize) -> Seq<TracedEdge> {
    edges.filter(|e: TracedEdge| e.to == node)
}

/// The children of `node`: the heads of the edges that leave it, in order.
pub fn children(edges: &Vec<TracedEdge>, node: usize) -> (out: Vec<usize>)
    ensures
        out@ == heads(spec_out_edges(edges@, node)),
{
    let ghost pred = |e: TracedEdge| e.from == node;
    let mut out: Vec<usize> = Vec::new();
    let mut i: usize = 0;
    assert(edges@.subrange(0, 0).filter(pred) =~= Seq::<TracedEdge>::empty());
    assert(out@ =~= heads(edges@.subrange(0, 0).filter(pred)));
    while i < edges.len()
        invariant
            i <= edges@.len(),
            pred == (|e: TracedEdge| e.from == node),
            out@ == heads(edges@.subrange(0, i as int).filter(pred)),
        decreases edges@.len() - i,
    {
        let e = edges[i];
        proof {
            assert(edges@.subrange(0, i + 1) =~= edges@.subrange(0, i as int).push(e));
            lemma_filter_push(edges@.subrange(0, i as int), e, pred);
        }
        if e.from == node {
            let ghost before = edges@.subrange(0, i as int).filter(pred);
            out.push(e.to);
            assert(out@ =~= heads(before.push(e)));
        }
        i = i + 1;
    }
    assert(edges@.subrange(0, edges@.len() as int) =~= edges@);
    out
}

/// The children of `node` that were found when `node` had been reached from
/// `via`, in order.
pub fn children_via(edges: &Vec<TracedEdge>, node: usize, via: usize) -> (out: Vec<usize>)
    ensures
        out@ == heads(spec_out_edges_via(edges@, node, via)),
{
    let ghost pred = |e: TracedEdge| e.from == node && e.via == via;
    let mut out: Vec<usize> = Vec::new();
    let mut i: usize = 0;
    assert(edges@.subrange(0, 0).filter(pred) =~= Seq::<TracedEdge>::empty());
    assert(out@ =~= heads(edges@.subrange(0, 0).filter(pred)));
    while i < edges.len()
        invariant
            i <= edges@.len(),
            pred == (|e: TracedEdge| e.from == node && e.via == via),
            out@ == heads(edges@.subrange(0, i as int).filter(pred)),
        decreases edges@.len() - i,
    {
        let e = edges[i];
        proof {
            assert(edges@.subrange(0, i + 1) =~= edges@.subrange(0, i as int).push(e));
            lemma_filter_push(edges@.subrange(0, i as int), e, pred);
        }
        if e.from == node && e.via == via {
            let ghost before = edges@.subrange(0, i as int).filter(pred);
            out.push(e.to);
            assert(out@ =~= heads(before.push(e)));
        }
        i = i + 1;
    }
    assert(edges@.subrange(0, edges@.len() as int) =~= edges@);
    out
}

/// The parents of `node`: the tails of the edges that arrive at it, in
/// order.
pub fn parents(edges: &Vec<TracedEdge>, node: usize) -> (out: Vec<usize>)
    ensures
        out@ == tails(spec_in_edges(edges@, node)),
{
    let ghost pred = |e: TracedEdge| e.to == node;
    let mut out: Vec<usize> = Vec::new();
    let mut i: usize = 0;
    assert(edges@.subrange(0, 0).filter(pred) =~= Seq::<TracedEdge>::empty());
    assert(out@ =~= tails(edges@.subrange(0, 0).filter(pred)));
    while i < edges.len()
        invariant
            i <= edges@.len(),
            pred == (|e: TracedEdge| e.to == node),
            out@ == tails(edges@.subrange(0, i as int).filter(pred)),
        decreases edges@.len() - i,
    {
        let e = edges[i];
        proof {
            assert(edges@.subrange(0, i + 1) =~= edges@.subrange(0, i as int).push(e));
            lemma_filter_push(edges@.subrange(0, i as int), e, pred);
        }
        if e.to == node {
            let ghost before = edges@.subrange(0, i as int).filter(pred);
            out.push(e.from);
            assert(out@ =~= tails(before.push(e)));
        }
        i = i + 1;
    }
    assert(edges@.subrange(0, edges@.len() as int) =~= edges@);
    out
}

/// The edges of `edges` that were found in round `depth`, in order.
pub fn edges_at_depth(edges: &Vec<TracedEdge>, depth: usize) -> (out: Vec<TracedEdge>)
    ensures
        out@ == edges@.filter(|e: TracedEdge| e.depth == depth),
{
    let ghost pred = |e: TracedEdge| e.depth == depth;
    let mut out: Vec<TracedEdge> = Vec::new();
    let mut i: usize = 0;
    assert(edges@.subrange(0, 0).filter(pred) =~= Seq::<TracedEdge>::empty());
    while i < edges.len()
        invariant
            i <= edges@.len(),
            pred == (|e: TracedEdge| e.depth == depth),
            out@ == edges@.subrange(0, i as int).filter(pred),
        decreases edges@.len() - i,
    {
        let e = edges[i];
        proof {
            assert(edges@.subrange(0, i + 1) =~= edges@.subrange(0, i as int).push(e));
            lemma_filter_push(edges@.subrange(0, i as int), e, pred);
        }
        if e.depth == depth {
            out.push(e);
        }
        i = i + 1;
    }
    assert(edges@.subrange(0, edges@.len() as int) =~= edges@);
    out
}

/// The edges of the `levels` deepest rounds up to round `max_depth`: those of
/// round `max_depth` first, then those of the round before, and so on.
pub open spec fn spec_deepest_first(edges: Seq<TracedEdge>, max_depth: nat, levels: nat) -> Seq<
    TracedEdge,
>
    decreases levels,
{
    if levels == 0 {
        Seq::empty()
    } else {
        spec_deepest_first(edges, max_depth, (levels - 1) as nat) + edges.filter(
            |e: TracedEdge| e.depth == max_depth - (levels - 1),
        )
    }
}

/// Every edge of the `levels` deepest rounds lies in one of them, and a
/// deeper edge comes before a shallower one.
pub proof fn lemma_deepest_first_ordered(edges: Seq<TracedEdge>, max_depth: nat, levels: nat)
    requires
        levels <= max_depth + 1,
    ensures
        forall|i: int|
            0 <= i < spec_deepest_first(edges, max_depth, levels).len() ==> max_depth - levels < (
            #[trigger] spec_deepest_first(edges, max_depth, levels)[i]).depth <= max_depth,
        forall|i: int, j: int|
            0 <= i < j < spec_deepest_first(edges, max_depth, levels).len() ==> (
            #[trigger] spec_deepest_first(edges, max_depth, levels)[i]).depth >= (
            #[trigger] spec_deepest_first(edges, max_depth, levels)[j]).depth,
    decreases levels,
{
    if levels > 0 {
        lemma_deepest_first_ordered(edges, max_depth, (levels - 1) as nat);
        let before = spec_deepest_first(edges, max_depth, (levels - 1) as nat);
        let pred = |e: TracedEdge| e.depth == max_depth - (levels - 1);
        let level = edges.filter(pred);
        let all = spec_deepest_first(edges, max_depth, levels);
        assert(all == before + level);
        broadcast use Seq::lemma_filter_pred;

        assert forall|i: int| 0 <= i < all.len() implies max_depth - levels < (#[trigger] all[i]).depth
            <= max_depth by {
            if i < before.len() {
                assert(all[i] == before[i]);
            } else {
                assert(all[i] == level[i - before.len()]);
                assert(pred(level[i - before.len()]));
            }
        }
        assert forall|i: int, j: int| 0 <= i < j < all.len() implies (#[trigger] all[i]).depth >= (
        #[trigger] all[j]).depth by {
            if j < before.len() {
                assert(all[i] == before[i]);
                assert(all[j] == before[j]);
            } else if i < before.len() {
                assert(all[i] == before[i]);
                assert(all[j] == level[j - before.len()]);
                assert(pred(level[j - before.len()]));
            } else {
                assert(all[i] == level[i - before.len()]);
                assert(all[j] == level[j - before.len()]);
                assert(pred(level[i - before.len()]));
                assert(pred(level[j - before.len()]));
            }
        }
    }
}

/// Every edge of one of the `levels` deepest rounds is among the edges of
/// those rounds.
pub proof fn lemma_deepest_first_holds(
    edges: Seq<TracedEdge>,
    max_depth: nat,
    levels: nat,
    e: TracedEdge,
)
    requires
        levels <= max_depth + 1,
        edges.contains(e),
        max_depth - levels < e.depth <= max_depth,
    ensures
        spec_deepest_first(edges, max_depth, levels).contains(e),
    decreases levels,
{
    let before = spec_deepest_first(edges, max_depth, (levels - 1) as nat);
    let pred = |x: TracedEdge| x.depth == max_depth - (levels - 1);
    let level = edges.filter(pred);
    let all = spec_deepest_first(edges, max_depth, levels);
    assert(all == before + level);
    if e.depth == max_depth - (levels - 1) {
        let i = choose|i: int| 0 <= i < edges.len() && edges[i] == e;
        edges.lemma_filter_contains(pred, i);
        let k = choose|k: int| 0 <= k < level.len() && level[k] == e;
        assert(all[before.len() + k] == e);
    } else {
        lemma_deepest_first_holds(edges, max_depth, (levels - 1) as nat, e);
        let k = choose|k: int| 0 <= k < before.len() && before[k] == e;
        assert(all[k] == e);
    }
}

/// The order in which the edges are weighed: deepest first, so that the edges
/// below a node are weighed before the edge that leads to it. Edges of a
/// round after `max_depth` are left out.
pub fn deepest_first(edges: &Vec<TracedEdge>, max_depth: usize) -> (order: Vec<TracedEdge>)
    ensures
        order@ == spec_deepest_first(edges@, max_depth as nat, (max_depth + 1) as nat),
        forall|i: int, j: int|
            0 <= i < j < order@.len() ==> (#[trigger] order@[i]).depth >= (
            #[trigger] order@[j]).depth,
        forall|i: int| 0 <= i < order@.len() ==> (#[trigger] order@[i]).depth <= max_depth,
{
    let mut order: Vec<TracedEdge> = Vec::new();
    let mut depth: usize = max_depth;
    let mut finished = false;
    while !finished
        invariant
            depth <= max_depth,
            !finished ==> order@ == spec_deepest_first(
                edges@,
                max_depth as nat,
                (max_depth - depth) as nat,
            ),
            finished ==> order@ == spec_deepest_first(
                edges@,
                max_depth as nat,
                (max_depth + 1) as nat,
            ),
        decreases depth + if finished { 0int } else { 1int },
    {
        let mut level = edges_at_depth(edges, depth);
        let ghost before = order@;
        order.append(&mut level);
        assert(order@ =~= spec_deepest_first(
            edges@,
            max_depth as nat,
            (max_depth - depth + 1) as nat,
        ));
        if depth == 0 {
            finished = true;
        } else {
            depth = depth - 1;
        }
    }
    proof {
        lemma_deepest_first_ordered(edges@, max_depth as nat, (max_depth + 1) as nat);
    }
    order
}

/// The nodes of the first `n` edges of `edges`, each once, in the order in
/// which they are first met, the tail of an edge before its head.
pub open spec fn spec_nodes(edges: Seq<TracedEdge>, n: nat) -> Seq<usize>
    decreases n,
{
    if n == 0 {
        Seq::empty()
    } else {
        let before = spec_nodes(edges, (n - 1) as nat);
        let e = edges[n - 1];
        let with_tail = if before.contains(e.from) {
            before
        } else {
            before.push(e.from)
        };
        if with_tail.contains(e.to) {
            with_tail
        } else {
            with_tail.push(e.to)
        }
    }
}

/// Whether `node` is among `list`.
pub fn list_contains(list: &Vec<usize>, node: usize) -> (found: bool)
    ensures
        found == list@.contains(node),
{
    let mut i: usize = 0;
    while i < list.len()
        invariant
            i <= list@.len(),
            forall|j: int| 0 <= j < i ==> list@[j] != node,
        decreases list@.len() - i,
    {
        if list[i] == node {
            return true;
        }
        i = i + 1;
    }
    false
}

/// The nodes of `edges`, each once, in the order in which they are first met.
pub fn nodes_of(edges: &Vec<TracedEdge>) -> (nodes: Vec<usize>)
    ensures
        nodes@ == spec_nodes(edges@, edges@.len()),
{
    let mut nodes: Vec<usize> = Vec::new();
    let mut i: usize = 0;
    while i < edges.len()
        invariant
            i <= edges@.len(),
            nodes@ == spec_nodes(edges@, i as nat),
        decreases edges@.len() - i,
    {
        let e = edges[i];
        if !list_contains(&nodes, e.from) {
            nodes.push(e.from);
        }
        if !list_contains(&nodes, e.to) {
            nodes.push(e.to);
        }
        i = i + 1;
    }
    nodes
}

} // verus!
