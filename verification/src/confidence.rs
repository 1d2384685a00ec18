//! What the confidence of a traced node is computed from.
//!
//! The estimate itself is arithmetic on probabilities. What it is arithmetic
//! *on* is decided here, from the tables of traced edges alone: for the
//! edges that leave a node, how many there are among how many neighbors (the
//! two numbers that give their false-positive rate); for a traced node, which
//! rate and which children's confidences its own confidence combines; and
//! for the forward tree, from which nodes it hangs.

use crate::fuzzy_traceback::{
    children, children_via, deepest_first, find_edge, has_key, heads, lemma_deepest_first_holds,
    lemma_deepest_first_ordered, list_contains, parents, spec_deepest_first, spec_in_edges,
    spec_out_edges, spec_out_edges_via, tails, TracedEdge, NO_NODE,
};
use std::collections::HashMap;
use vstd::prelude::*;

verus! {

broadcast use vstd::std_specs::hash::group_hash_axioms;

/// What the false-positive rate of the edges that leave a node is computed
/// from: the node was reached from `par`, `out_degree` edges leave it on that
/// way, and it has `neighbors` neighbors in the whole graph, each of which
/// could have matched falsely.
#[derive(Clone, Copy, Debug, PartialEq, Eq, Structural)]
pub struct RateInput {
    pub node: usize,
    pub par: usize,
    pub out_degree: usize,
    pub neighbors: usize,
}

/// How many neighbors `node` has in the whole graph; none where `degrees`
/// does not know the node.
pub open spec fn spec_degree(degrees: Map<usize, usize>, node: usize) -> usize {
    if degrees.contains_key(node) {
        degrees[node]
    } else {
        0
    }
}

/// How many neighbors `node` has in the whole graph.
pub fn degree_of(degrees: &HashMap<usize, usize>, node: usize) -> (n: usize)
    ensures
        n == spec_degree(degrees@, node),
{
    match degrees.get(&node) {
        Some(n) => *n,
        None => 0,
    }
}

/// How many edges leave `node` on the way on which it was reached from
/// `par`: all of them where it was reached from nowhere.
pub open spec fn spec_src_edge_count(edges: Seq<TracedEdge>, node: usize, par: usize) -> nat {
    if par == NO_NODE {
        spec_out_edges(edges, node).len()
    } else {
        spec_out_edges_via(edges, node, par).len()
    }
}

/// How many edges leave `node` on the way on which it was reached from `par`.
pub fn src_edge_count(edges: &Vec<TracedEdge>, node: usize, par: usize) -> (count: usize)
    ensures
        count == spec_src_edge_count(edges@, node, par),
{
    if par == NO_NODE {
        children(edges, node).len()
    } else {
        children_via(edges, node, par).len()
    }
}

/// The rate input of `node` as reached from `par`.
pub open spec fn spec_rate_input(
    edges: Seq<TracedEdge>,
    degrees: Map<usize, usize>,
    node: usize,
    par: usize,
) -> RateInput {
    RateInput {
        node,
        par,
        out_degree: spec_src_edge_count(edges, node, par) as usize,
        neighbors: spec_degree(degrees, node),
    }
}

/// The ways on which `node` was reached: its parents, or nowhere where it
/// has none.
pub open spec fn spec_ways(edges: Seq<TracedEdge>, node: usize) -> Seq<usize> {
    let pars = tails(spec_in_edges(edges, node));
    if pars.len() == 0 {
        seq![NO_NODE]
    } else {
        pars
    }
}

/// The rate inputs of `node`: one for each way on which it was reached.
pub open spec fn spec_node_rate_inputs(
    edges: Seq<TracedEdge>,
    degrees: Map<usize, usize>,
    node: usize,
) -> Seq<RateInput> {
    let ways = spec_ways(edges, node);
    Seq::new(ways.len(), |i: int| spec_rate_input(edges, degrees, node, ways[i]))
}

/// The ways on which `node` was reached.
pub fn ways(edges: &Vec<TracedEdge>, node: usize) -> (out: Vec<usize>)
    ensures
        out@ == spec_ways(edges@, node),
{
    let mut pars = parents(edges, node);
    if pars.len() == 0 {
        pars.push(NO_NODE);
        assert(pars@ =~= seq![NO_NODE]);
    }
    pars
}

/// Computes the rate inputs of `node`: for each way on which it was reached,
/// how many edges leave it on that way, among how many neighbors.
pub fn node_rate_inputs(edges: &Vec<TracedEdge>, degrees: &HashMap<usize, usize>, node: usize) -> (out:
    Vec<RateInput>)
    ensures
        out@ == spec_node_rate_inputs(edges@, degrees@, node),
{
    let conn = degree_of(degrees, node);
    let par_list = ways(edges, node);
    let mut out: Vec<RateInput> = Vec::new();
    let mut i: usize = 0;
    while i < par_list.len()
        invariant
            i <= par_list@.len(),
            par_list@ == spec_ways(edges@, node),
            conn == spec_degree(degrees@, node),
            out@.len() == i,
            forall|k: int|
                0 <= k < i ==> out@[k] == spec_rate_input(edges@, degrees@, node, par_list@[k]),
        decreases par_list@.len() - i,
    {
        let par = par_list[i];
        let count = src_edge_count(edges, node, par);
        out.push(RateInput { node, par, out_degree: count, neighbors: conn });
        i = i + 1;
    }
    assert(out@ =~= spec_node_rate_inputs(edges@, degrees@, node));
    out
}

/// What the confidence of a traced node is computed from, as the contracts
/// see it.
#[verifier::ext_equal]
pub struct NodeInputView {
    pub node: usize,
    pub par: usize,
    pub rate: RateInput,
    pub children: Seq<usize>,
    pub siblings: nat,
}

/// What the confidence of a traced node is computed from: the node `node`
/// was found from `par`.
#[derive(Debug)]
pub struct NodeInput {
    /// The node.
    pub node: usize,
    /// The node from which it was found.
    pub par: usize,
    /// The rate input of the edges that leave `par` on the way on which
    /// `par` itself was reached.
    pub rate: RateInput,
    /// The children of `node` on the way on which it was reached from `par`;
    /// their confidences are resolved before that of `node`.
    pub children: Vec<usize>,
    /// How many edges leave `par` in all.
    pub siblings: usize,
}

impl View for NodeInput {
    type V = NodeInputView;

    open spec fn view(&self) -> NodeInputView {
        NodeInputView {
            node: self.node,
            par: self.par,
            rate: self.rate,
            children: self.children@,
            siblings: self.siblings as nat,
        }
    }
}

/// The node input for the edge `e` of the backward chain `edges`: the rate
/// is that of the parent on the way on which the parent was reached.
pub open spec fn spec_backward_node_input(
    edges: Seq<TracedEdge>,
    degrees: Map<usize, usize>,
    e: TracedEdge,
) -> NodeInputView {
    NodeInputView {
        node: e.to,
        par: e.from,
        rate: spec_rate_input(edges, degrees, e.from, e.via),
        children: heads(spec_out_edges_via(edges, e.to, e.from)),
        siblings: spec_out_edges(edges, e.from).len(),
    }
}

/// Whether the way `via` is one of those on which `node` was reached, so that
/// a rate was computed for it.
pub open spec fn way_known(edges: Seq<TracedEdge>, node: usize, via: usize) -> bool {
    spec_ways(edges, node).contains(via)
}

/// Computes what the confidence of the node at the head of the edge `e` of
/// the backward chain is computed from. `None` where the parent was not
/// reached on the way that `e` names, so that no rate stands for it.
pub fn backward_node_input(
    edges: &Vec<TracedEdge>,
    degrees: &HashMap<usize, usize>,
    e: &TracedEdge,
) -> (out: Option<NodeInput>)
    ensures
        out is Some <==> way_known(edges@, e.from, e.via),
        out matches Some(input) ==> input@ == spec_backward_node_input(edges@, degrees@, *e),
{
    let par_ways = ways(edges, e.from);
    if !list_contains(&par_ways, e.via) {
        return None;
    }
    let rate = RateInput {
        node: e.from,
        par: e.via,
        out_degree: src_edge_count(edges, e.from, e.via),
        neighbors: degree_of(degrees, e.from),
    };
    let below = children_via(edges, e.to, e.from);
    let beside = children(edges, e.from);
    Some(NodeInput { node: e.to, par: e.from, rate, children: below, siblings: beside.len() })
}

/// The node input for the edge `e` of the forward tree `edges`. Where the
/// parent was reached on the way that `e` names, the rate is the one that
/// stands for that way. Where it was not (the parent is one of the nodes
/// from which the forward tree hangs), the rate counts the edges that leave
/// the parent on that way.
pub open spec fn spec_forward_node_input(
    edges: Seq<TracedEdge>,
    degrees: Map<usize, usize>,
    e: TracedEdge,
) -> NodeInputView {
    NodeInputView {
        node: e.to,
        par: e.from,
        rate: if has_key(edges, e.via, e.from) {
            spec_rate_input(edges, degrees, e.from, e.via)
        } else {
            RateInput {
                node: e.from,
                par: e.via,
                out_degree: spec_out_edges_via(edges, e.from, e.via).len() as usize,
                neighbors: spec_degree(degrees, e.from),
            }
        },
        children: heads(spec_out_edges_via(edges, e.to, e.from)),
        siblings: spec_out_edges(edges, e.from).len(),
    }
}

/// Computes what the confidence of the node at the head of the edge `e` of
/// the forward tree is computed from.
pub fn forward_node_input(
    edges: &Vec<TracedEdge>,
    degrees: &HashMap<usize, usize>,
    e: &TracedEdge,
) -> (out: NodeInput)
    ensures
        out@ == spec_forward_node_input(edges@, degrees@, *e),
{
    let count = if find_edge(edges, e.via, e.from).is_some() {
        src_edge_count(edges, e.from, e.via)
    } else {
        children_via(edges, e.from, e.via).len()
    };
    let rate = RateInput {
        node: e.from,
        par: e.via,
        out_degree: count,
        neighbors: degree_of(degrees, e.from),
    };
    let below = children_via(edges, e.to, e.from);
    let beside = children(edges, e.from);
    NodeInput { node: e.to, par: e.from, rate, children: below, siblings: beside.len() }
}

/// The node inputs of `list`, as the contracts see them.
pub open spec fn plan_view(list: Seq<NodeInput>) -> Seq<NodeInputView> {
    Seq::new(list.len(), |i: int| list[i]@)
}

/// The order in which the edges of `edges` are weighed: deepest first, up to
/// round `max_depth`.
pub open spec fn spec_order(edges: Seq<TracedEdge>, max_depth: usize) -> Seq<TracedEdge> {
    spec_deepest_first(edges, max_depth as nat, (max_depth + 1) as nat)
}

/// The node inputs of the backward chain `edges`, in the order in which they
/// are weighed.
pub open spec fn spec_backward_plan(
    edges: Seq<TracedEdge>,
    degrees: Map<usize, usize>,
    max_depth: usize,
) -> Seq<NodeInputView> {
    let order = spec_order(edges, max_depth);
    Seq::new(order.len(), |i: int| spec_backward_node_input(edges, degrees, order[i]))
}

/// The node inputs of the forward tree `edges`, in the order in which they
/// are weighed.
pub open spec fn spec_forward_plan(
    edges: Seq<TracedEdge>,
    degrees: Map<usize, usize>,
    max_depth: usize,
) -> Seq<NodeInputView> {
    let order = spec_order(edges, max_depth);
    Seq::new(order.len(), |i: int| spec_forward_node_input(edges, degrees, order[i]))
}

/// Whether every edge that is weighed names a way on which its tail was
/// reached.
pub open spec fn ways_known(edges: Seq<TracedEdge>, max_depth: usize) -> bool {
    let order = spec_order(edges, max_depth);
    forall|i: int|
        0 <= i < order.len() ==> way_known(edges, (#[trigger] order[i]).from, order[i].via)
}

/// Computes the node inputs of the backward chain, deepest first. `None`
/// where an edge names a way on which its tail was not reached.
pub fn backward_plan(
    edges: &Vec<TracedEdge>,
    degrees: &HashMap<usize, usize>,
    max_depth: usize,
) -> (out: Option<Vec<NodeInput>>)
    ensures
        out is Some <==> ways_known(edges@, max_depth),
        out matches Some(plan) ==> plan_view(plan@) == spec_backward_plan(
            edges@,
            degrees@,
            max_depth,
        ),
{
    let order = deepest_first(edges, max_depth);
    let mut plan: Vec<NodeInput> = Vec::new();
    let mut i: usize = 0;
    while i < order.len()
        invariant
            i <= order@.len(),
            order@ == spec_order(edges@, max_depth),
            plan@.len() == i,
            forall|k: int|
                0 <= k < i ==> way_known(edges@, (#[trigger] order@[k]).from, order@[k].via),
            forall|k: int|
                0 <= k < i ==> (#[trigger] plan@[k])@ == spec_backward_node_input(
                    edges@,
                    degrees@,
                    order@[k],
                ),
        decreases order@.len() - i,
    {
        match backward_node_input(edges, degrees, &order[i]) {
            Some(input) => {
                plan.push(input);
            },
            None => {
                assert(!way_known(edges@, order@[i as int].from, order@[i as int].via));
                return None;
            },
        }
        i = i + 1;
    }
    assert(plan_view(plan@) =~= spec_backward_plan(edges@, degrees@, max_depth));
    Some(plan)
}

/// Computes the node inputs of the forward tree, deepest first.
pub fn forward_plan(
    edges: &Vec<TracedEdge>,
    degrees: &HashMap<usize, usize>,
    max_depth: usize,
) -> (plan: Vec<NodeInput>)
    ensures
        plan_view(plan@) == spec_forward_plan(edges@, degrees@, max_depth),
{
    let order = deepest_first(edges, max_depth);
    let mut plan: Vec<NodeInput> = Vec::new();
    let mut i: usize = 0;
    while i < order.len()
        invariant
            i <= order@.len(),
            order@ == spec_order(edges@, max_depth),
            plan@.len() == i,
            forall|k: int|
                0 <= k < i ==> (#[trigger] plan@[k])@ == spec_forward_node_input(
                    edges@,
                    degrees@,
                    order@[k],
                ),
        decreases order@.len() - i,
    {
        plan.push(forward_node_input(edges, degrees, &order[i]));
        i = i + 1;
    }
    assert(plan_view(plan@) =~= spec_forward_plan(edges@, degrees@, max_depth));
    plan
}

/// Whether the child `child` of the entry at place `i` of `plan` is resolved
/// before it: an earlier entry stands for `child` as found from the node of
/// that entry.
pub open spec fn child_resolved(plan: Seq<NodeInputView>, i: int, child: usize) -> bool {
    exists|j: int| 0 <= j < i && (#[trigger] plan[j]).node == child && plan[j].par == plan[i].node
}

/// Whether every entry of `plan` comes after the entries of its children, so
/// that the confidence of a node is computed only when those of its children
/// are.
pub open spec fn resolved(plan: Seq<NodeInputView>) -> bool {
    forall|i: int, k: int|
        0 <= i < plan.len() && 0 <= k < plan[i].children.len() ==> child_resolved(
            plan,
            i,
            #[trigger] plan[i].children[k],
        )
}

/// Whether the entry for `child` as found from `node` is among the first `i`
/// entries of `plan`.
pub fn entry_before(plan: &Vec<NodeInput>, i: usize, child: usize, node: usize) -> (found: bool)
    requires
        i <= plan@.len(),
    ensures
        found == exists|j: int|
            0 <= j < i && (#[trigger] plan_view(plan@)[j]).node == child && plan_view(plan@)[j].par
                == node,
{
    let mut j: usize = 0;
    while j < i
        invariant
            j <= i <= plan@.len(),
            forall|k: int|
                0 <= k < j ==> !((#[trigger] plan_view(plan@)[k]).node == child && plan_view(
                    plan@,
                )[k].par == node),
        decreases i - j,
    {
        if plan[j].node == child && plan[j].par == node {
            assert(plan_view(plan@)[j as int].node == child);
            return true;
        }
        j = j + 1;
    }
    false
}

/// Whether every entry of `plan` comes after the entries of its children.
pub fn plan_resolved(plan: &Vec<NodeInput>) -> (ok: bool)
    ensures
        ok == resolved(plan_view(plan@)),
{
    let ghost view = plan_view(plan@);
    let mut i: usize = 0;
    while i < plan.len()
        invariant
            i <= plan@.len(),
            view == plan_view(plan@),
            forall|a: int, k: int|
                0 <= a < i && 0 <= k < view[a].children.len() ==> child_resolved(
                    view,
                    a,
                    #[trigger] view[a].children[k],
                ),
        decreases plan@.len() - i,
    {
        let mut k: usize = 0;
        while k < plan[i].children.len()
            invariant
                i < plan@.len(),
                k <= plan@[i as int].children@.len(),
                view == plan_view(plan@),
                forall|b: int|
                    0 <= b < k ==> child_resolved(view, i as int, #[trigger] view[i as int].children[b]),
            decreases plan@[i as int].children@.len() - k,
        {
            assert(view[i as int].children == plan@[i as int].children@);
            if !entry_before(plan, i, plan[i].children[k], plan[i].node) {
                assert(!child_resolved(view, i as int, view[i as int].children[k as int]));
                return false;
            }
            k = k + 1;
        }
        i = i + 1;
    }
    true
}

/// Whether the rounds of `edges` run downwards: an edge that leaves the head
/// of another on the way through its tail was found in a later round, and in
/// none after `max_depth`.
pub open spec fn layered(edges: Seq<TracedEdge>, max_depth: usize) -> bool {
    forall|a: int, b: int|
        0 <= a < edges.len() && 0 <= b < edges.len() && (#[trigger] edges[b]).from == (
        #[trigger] edges[a]).to && edges[b].via == edges[a].from ==> edges[a].depth
            < edges[b].depth <= max_depth
}

/// What is weighed is an edge of the table.
proof fn lemma_order_is_part(edges: Seq<TracedEdge>, max_depth: nat, levels: nat, e: TracedEdge)
    requires
        spec_deepest_first(edges, max_depth, levels).contains(e),
    ensures
        edges.contains(e),
    decreases levels,
{
    if levels > 0 {
        let before = spec_deepest_first(edges, max_depth, (levels - 1) as nat);
        let pred = |x: TracedEdge| x.depth == max_depth - (levels - 1);
        let level = edges.filter(pred);
        let all = spec_deepest_first(edges, max_depth, levels);
        assert(all == before + level);
        let k = choose|k: int| 0 <= k < all.len() && all[k] == e;
        if k < before.len() {
            assert(before[k] == e);
            lemma_order_is_part(edges, max_depth, (levels - 1) as nat, e);
        } else {
            assert(level[k - before.len()] == e);
            assert(level.contains(e));
            edges.lemma_filter_contains_rev(pred, e);
        }
    }
}

/// Where the rounds run downwards, a plan in the order of weighing whose
/// entries stand for the edges resolves every child before its parent.
proof fn lemma_layered_resolves(
    edges: Seq<TracedEdge>,
    max_depth: usize,
    plan: Seq<NodeInputView>,
)
    requires
        layered(edges, max_depth),
        plan.len() == spec_order(edges, max_depth).len(),
        forall|i: int|
            0 <= i < plan.len() ==> (#[trigger] plan[i]).node == spec_order(edges, max_depth)[i].to
                && plan[i].par == spec_order(edges, max_depth)[i].from && plan[i].children
                == heads(
                spec_out_edges_via(
                    edges,
                    spec_order(edges, max_depth)[i].to,
                    spec_order(edges, max_depth)[i].from,
                ),
            ),
    ensures
        resolved(plan),
{
    let order = spec_order(edges, max_depth);
    lemma_deepest_first_ordered(edges, max_depth as nat, (max_depth + 1) as nat);
    assert forall|i: int, k: int|
        0 <= i < plan.len() && 0 <= k < plan[i].children.len() implies child_resolved(
        plan,
        i,
        #[trigger] plan[i].children[k],
    ) by {
        let e = order[i];
        assert(order.contains(e));
        lemma_order_is_part(edges, max_depth as nat, (max_depth + 1) as nat, e);
        let pred = |x: TracedEdge| x.from == e.to && x.via == e.from;
        let below = edges.filter(pred);
        let e2 = below[k];
        assert(below.contains(e2));
        edges.lemma_filter_contains_rev(pred, e2);
        edges.lemma_filter_pred(pred, k);
        let a = choose|a: int| 0 <= a < edges.len() && edges[a] == e;
        let b = choose|b: int| 0 <= b < edges.len() && edges[b] == e2;
        assert(edges[b].from == edges[a].to && edges[b].via == edges[a].from);
        assert(e.depth < e2.depth <= max_depth);
        lemma_deepest_first_holds(edges, max_depth as nat, (max_depth + 1) as nat, e2);
        let j = choose|j: int| 0 <= j < order.len() && order[j] == e2;
        if j > i {
            assert(order[i].depth >= order[j].depth);
        }
        assert(j < i);
        assert(plan[j].node == e2.to && plan[j].par == e2.from);
    }
}

/// Where the rounds run downwards, the deepest-first order resolves every
/// child before its parent, in the backward chain and in the forward tree.
pub proof fn lemma_layered_plans_are_resolved(
    edges: Seq<TracedEdge>,
    degrees: Map<usize, usize>,
    max_depth: usize,
)
    requires
        layered(edges, max_depth),
    ensures
        resolved(spec_backward_plan(edges, degrees, max_depth)),
        resolved(spec_forward_plan(edges, degrees, max_depth)),
{
    lemma_layered_resolves(edges, max_depth, spec_backward_plan(edges, degrees, max_depth));
    lemma_layered_resolves(edges, max_depth, spec_forward_plan(edges, degrees, max_depth));
}

/// Whether the forward tree hangs from `node` on the way `src`: the node has
/// no parent at all and `src` is nowhere, or an edge leaves the node on the
/// way `src` although `src` is not its parent.
pub open spec fn is_source(edges: Seq<TracedEdge>, node: usize, src: usize) -> bool {
    ||| (spec_in_edges(edges, node).len() == 0 && src == NO_NODE)
    ||| (!has_key(edges, src, node) && exists|i: int|
        0 <= i < edges.len() && (#[trigger] edges[i]).from == node && edges[i].via == src)
}

/// Whether `list` is strictly ascending.
pub open spec fn ascending(list: Seq<usize>) -> bool {
    forall|i: int, j: int| 0 <= i < j < list.len() ==> list[i] < list[j]
}

/// Puts `x` at its place in the ascending list `list`, unless it is there.
pub fn insert_ascending(list: &mut Vec<usize>, x: usize)
    requires
        ascending(old(list)@),
    ensures
        ascending(final(list)@),
        forall|y: usize| final(list)@.contains(y) <==> (old(list)@.contains(y) || y == x),
{
    let mut i: usize = 0;
    while i < list.len() && list[i] < x
        invariant
            i <= list@.len(),
            list@ == old(list)@,
            ascending(list@),
            forall|j: int| 0 <= j < i ==> list@[j] < x,
        decreases list@.len() - i,
    {
        i = i + 1;
    }
    if i < list.len() && list[i] == x {
        assert(list@[i as int] == x);
        return ;
    }
    let ghost before = list@;
    list.insert(i, x);
    proof {
        before.insert_ensures(i as int, x);
        let after = list@;
        assert forall|a: int, b: int| 0 <= a < b < after.len() implies after[a] < after[b] by {
            if b < i {
            } else if b == i {
            } else if a < i {
                assert(after[b] == before[b - 1]);
            } else if a == i {
                assert(after[b] == before[b - 1]);
            } else {
                assert(after[a] == before[a - 1]);
                assert(after[b] == before[b - 1]);
            }
        }
        assert forall|y: usize| after.contains(y) <==> (before.contains(y) || y == x) by {
            if after.contains(y) {
                let k = choose|k: int| 0 <= k < after.len() && after[k] == y;
                if k < i {
                    assert(before[k] == y);
                } else if k > i {
                    assert(before[k - 1] == y);
                }
            }
            if before.contains(y) {
                let k = choose|k: int| 0 <= k < before.len() && before[k] == y;
                if k < i {
                    assert(after[k] == y);
                } else {
                    assert(after[k + 1] == y);
                }
            }
            if y == x {
                assert(after[i as int] == x);
            }
        }
    }
}

/// The ways on which the forward tree hangs from `node`, in ascending order.
pub fn source_ways(edges: &Vec<TracedEdge>, node: usize) -> (out: Vec<usize>)
    ensures
        ascending(out@),
        forall|src: usize| out@.contains(src) <==> is_source(edges@, node, src),
{
    let mut out: Vec<usize> = Vec::new();
    let pars = parents(edges, node);
    if pars.len() == 0 {
        out.push(NO_NODE);
    }
    let ghost orphan = spec_in_edges(edges@, node).len() == 0;
    assert forall|src: usize| out@.contains(src) <==> (orphan && src == NO_NODE) by {
        if orphan {
            assert(out@[0] == NO_NODE);
        }
    }
    let mut i: usize = 0;
    while i < edges.len()
        invariant
            i <= edges@.len(),
            ascending(out@),
            orphan == (spec_in_edges(edges@, node).len() == 0),
            forall|src: usize|
                out@.contains(src) <==> ((orphan && src == NO_NODE) || (!has_key(
                    edges@,
                    src,
                    node,
                ) && exists|k: int|
                    0 <= k < i && (#[trigger] edges@[k]).from == node && edges@[k].via == src)),
        decreases edges@.len() - i,
    {
        let e = edges[i];
        let ghost before = out@;
        if e.from == node && find_edge(edges, e.via, node).is_none() {
            insert_ascending(&mut out, e.via);
        }
        assert forall|src: usize|
            out@.contains(src) <==> ((orphan && src == NO_NODE) || (!has_key(edges@, src, node)
                && exists|k: int|
                0 <= k < i + 1 && (#[trigger] edges@[k]).from == node && edges@[k].via
                    == src)) by {
            if !has_key(edges@, src, node) && exists|k: int|
                0 <= k < i + 1 && (#[trigger] edges@[k]).from == node && edges@[k].via == src {
                let k = choose|k: int|
                    0 <= k < i + 1 && (#[trigger] edges@[k]).from == node && edges@[k].via == src;
                if k < i {
                    assert(before.contains(src));
                }
            }
            if out@.contains(src) && !before.contains(src) {
                assert(src == e.via);
                assert(edges@[i as int].from == node && edges@[i as int].via == src);
            }
        }
        i = i + 1;
    }
    out
}

/// One node from which the forward tree hangs, as the contracts see it.
#[verifier::ext_equal]
pub struct SourceInputView {
    pub node: usize,
    pub src: usize,
    pub children: Seq<usize>,
}

/// One node from which the forward tree hangs: on the way `src` the children
/// `children` hang from `node`.
#[derive(Debug)]
pub struct SourceInput {
    pub node: usize,
    pub src: usize,
    pub children: Vec<usize>,
}

impl View for SourceInput {
    type V = SourceInputView;

    open spec fn view(&self) -> SourceInputView {
        SourceInputView { node: self.node, src: self.src, children: self.children@ }
    }
}

/// Computes the ways on which the forward tree hangs from `node`, in
/// ascending order of the way, each with the children that hang from the
/// node on it.
pub fn node_sources(edges: &Vec<TracedEdge>, node: usize) -> (out: Vec<SourceInput>)
    ensures
        forall|i: int, j: int| 0 <= i < j < out@.len() ==> out@[i].src < out@[j].src,
        forall|src: usize|
            is_source(edges@, node, src) <==> exists|i: int|
                0 <= i < out@.len() && (#[trigger] out@[i]).src == src,
        forall|i: int|
            0 <= i < out@.len() ==> (#[trigger] out@[i])@ == (SourceInputView {
                node,
                src: out@[i].src,
                children: heads(spec_out_edges_via(edges@, node, out@[i].src)),
            }),
{
    let srcs = source_ways(edges, node);
    let mut out: Vec<SourceInput> = Vec::new();
    let mut i: usize = 0;
    while i < srcs.len()
        invariant
            i <= srcs@.len(),
            out@.len() == i,
            forall|k: int|
                0 <= k < i ==> (#[trigger] out@[k])@ == (SourceInputView {
                    node,
                    src: srcs@[k],
                    children: heads(spec_out_edges_via(edges@, node, srcs@[k])),
                }),
        decreases srcs@.len() - i,
    {
        let src = srcs[i];
        out.push(SourceInput { node, src, children: children_via(edges, node, src) });
        i = i + 1;
    }
    assert forall|src: usize|
        is_source(edges@, node, src) <==> exists|i: int|
            0 <= i < out@.len() && (#[trigger] out@[i]).src == src by {
        if is_source(edges@, node, src) {
            assert(srcs@.contains(src));
            let k = choose|k: int| 0 <= k < srcs@.len() && srcs@[k] == src;
            assert(out@[k]@.src == src);
        }
        if exists|i: int| 0 <= i < out@.len() && (#[trigger] out@[i]).src == src {
            let k = choose|k: int| 0 <= k < out@.len() && (#[trigger] out@[k]).src == src;
            assert(out@[k]@.src == srcs@[k]);
            assert(srcs@.contains(src));
        }
    }
    assert forall|i: int, j: int| 0 <= i < j < out@.len() implies out@[i].src < out@[j].src by {
        assert(out@[i]@.src == srcs@[i]);
        assert(out@[j]@.src == srcs@[j]);
    }
    out
}

} // verus!
