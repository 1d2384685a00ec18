use impact_tracing::confidence::{
    backward_node_input, backward_plan, degree_of, entry_before, forward_node_input,
    forward_plan, insert_ascending, node_rate_inputs, node_sources, plan_resolved, source_ways,
    src_edge_count, ways, NodeInput, RateInput,
};
use impact_tracing::fuzzy_traceback::{drop_reversed, TracedEdge, NO_NODE};
use std::collections::HashMap;

fn edge(from: usize, to: usize, depth: usize, via: usize) -> TracedEdge {
    TracedEdge { from, to, depth, via }
}

// The backward chain found from 5: 5 was sent the message by 3, and 3 by 1.
fn backward() -> Vec<TracedEdge> {
    vec![edge(5, 3, 0, NO_NODE), edge(3, 1, 1, 5)]
}

// The forward tree, with the edges that the backward chain has in reverse
// taken out: 5 sent to 6, 3 to 4, 6 to 7, 1 to 2, 4 to 8.
fn forward() -> Vec<TracedEdge> {
    let found = vec![
        edge(5, 6, 0, NO_NODE),
        edge(3, 5, 1, 5),
        edge(3, 4, 1, 5),
        edge(6, 7, 1, 5),
        edge(1, 3, 2, 3),
        edge(1, 2, 2, 3),
        edge(4, 8, 2, 3),
    ];
    drop_reversed(&found, &backward())
}

fn degrees() -> HashMap<usize, usize> {
    let mut degrees = HashMap::new();
    for node in 1..=8 {
        degrees.insert(node, 10 + node);
    }
    degrees
}

#[test]
fn degree_of_an_unknown_node_is_zero() {
    assert_eq!(degree_of(&degrees(), 3), 13);
    assert_eq!(degree_of(&degrees(), 99), 0);
}

#[test]
fn ways_are_the_parents_or_nowhere() {
    assert_eq!(ways(&backward(), 5), vec![NO_NODE]);
    assert_eq!(ways(&backward(), 3), vec![5]);
    assert_eq!(ways(&backward(), 1), vec![3]);
    let twice = vec![edge(1, 9, 0, 0), edge(2, 9, 0, 0)];
    assert_eq!(ways(&twice, 9), vec![1, 2]);
}

#[test]
fn src_edge_count_counts_one_way_or_all() {
    let edges = vec![edge(3, 4, 1, 5), edge(3, 6, 1, 7), edge(3, 8, 2, 5)];
    assert_eq!(src_edge_count(&edges, 3, 5), 2);
    assert_eq!(src_edge_count(&edges, 3, 7), 1);
    assert_eq!(src_edge_count(&edges, 3, 9), 0);
    assert_eq!(src_edge_count(&edges, 3, NO_NODE), 3);
    assert_eq!(src_edge_count(&edges, 4, NO_NODE), 0);
}

#[test]
fn rate_inputs_of_the_backward_chain() {
    let edges = backward();
    assert_eq!(
        node_rate_inputs(&edges, &degrees(), 5),
        vec![RateInput { node: 5, par: NO_NODE, out_degree: 1, neighbors: 15 }]
    );
    assert_eq!(
        node_rate_inputs(&edges, &degrees(), 3),
        vec![RateInput { node: 3, par: 5, out_degree: 1, neighbors: 13 }]
    );
    assert_eq!(
        node_rate_inputs(&edges, &degrees(), 1),
        vec![RateInput { node: 1, par: 3, out_degree: 0, neighbors: 11 }]
    );
}

#[test]
fn rate_inputs_for_each_way() {
    let edges = vec![edge(1, 9, 0, 0), edge(2, 9, 0, 0), edge(9, 7, 1, 1), edge(9, 8, 1, 2)];
    assert_eq!(
        node_rate_inputs(&edges, &degrees(), 9),
        vec![
            RateInput { node: 9, par: 1, out_degree: 1, neighbors: 0 },
            RateInput { node: 9, par: 2, out_degree: 1, neighbors: 0 },
        ]
    );
}

#[test]
fn backward_node_input_reads_the_chain() {
    let edges = backward();
    // the edge from 5 to its sender 3
    let input = backward_node_input(&edges, &degrees(), &edges[0]).unwrap();
    assert_eq!(input.node, 3);
    assert_eq!(input.par, 5);
    assert_eq!(input.rate, RateInput { node: 5, par: NO_NODE, out_degree: 1, neighbors: 15 });
    assert_eq!(input.children, vec![1]);
    assert_eq!(input.siblings, 1);
    // the edge from 3 to its sender 1: the end of the chain
    let input = backward_node_input(&edges, &degrees(), &edges[1]).unwrap();
    assert_eq!(input.node, 1);
    assert_eq!(input.par, 3);
    assert_eq!(input.rate, RateInput { node: 3, par: 5, out_degree: 1, neighbors: 13 });
    assert_eq!(input.children, Vec::<usize>::new());
    assert_eq!(input.siblings, 1);
}

#[test]
fn backward_node_input_needs_the_way_of_the_parent() {
    // 3 was reached from 5, not from 7
    let edges = vec![edge(5, 3, 0, NO_NODE), edge(3, 1, 1, 7)];
    assert!(backward_node_input(&edges, &degrees(), &edges[1]).is_none());
    assert!(backward_node_input(&edges, &degrees(), &edges[0]).is_some());
    // 5 has a parent, so it was not reached from nowhere
    let edges = vec![edge(5, 3, 0, NO_NODE), edge(9, 5, 0, NO_NODE)];
    assert!(backward_node_input(&edges, &degrees(), &edges[0]).is_none());
}

#[test]
fn forward_node_input_reads_the_tree() {
    let edges = forward();
    assert_eq!(edges.len(), 5);
    // 5 -> 6: 5 hangs from nowhere
    let input = forward_node_input(&edges, &degrees(), &edges[0]);
    assert_eq!(input.node, 6);
    assert_eq!(input.par, 5);
    assert_eq!(input.rate, RateInput { node: 5, par: NO_NODE, out_degree: 1, neighbors: 15 });
    assert_eq!(input.children, vec![7]);
    assert_eq!(input.siblings, 1);
    // 3 -> 4: 3 was reached from 5, but the forward tree has no edge from 5 to 3
    let input = forward_node_input(&edges, &degrees(), &edges[1]);
    assert_eq!(input.node, 4);
    assert_eq!(input.rate, RateInput { node: 3, par: 5, out_degree: 1, neighbors: 13 });
    assert_eq!(input.children, vec![8]);
    // 6 -> 7: 6 was reached from 5 by an edge of the tree
    let input = forward_node_input(&edges, &degrees(), &edges[2]);
    assert_eq!(input.node, 7);
    assert_eq!(input.rate, RateInput { node: 6, par: 5, out_degree: 1, neighbors: 16 });
    assert_eq!(input.children, Vec::<usize>::new());
}

#[test]
fn forward_rate_counts_all_edges_of_a_node_reached_from_nowhere_by_an_edge() {
    // the node NO_NODE itself is the parent of 2
    let edges = vec![edge(NO_NODE, 2, 0, 7), edge(2, 3, 1, NO_NODE), edge(2, 4, 1, 9)];
    let input = forward_node_input(&edges, &degrees(), &edges[1]);
    assert_eq!(input.rate.out_degree, 2);
    // without that edge only the edges on the way are counted
    let edges = vec![edge(2, 3, 1, NO_NODE), edge(2, 4, 1, 9)];
    let input = forward_node_input(&edges, &degrees(), &edges[0]);
    assert_eq!(input.rate.out_degree, 1);
}

#[test]
fn insert_ascending_keeps_order_and_uniqueness() {
    let mut list = Vec::new();
    for x in [5usize, 1, 9, 5, 3, 1, NO_NODE, 0] {
        insert_ascending(&mut list, x);
    }
    assert_eq!(list, vec![0, 1, 3, 5, 9, NO_NODE]);
}

#[test]
fn sources_of_the_forward_tree() {
    let edges = forward();
    // 5 has no parent and sends on the way from nowhere
    assert_eq!(source_ways(&edges, 5), vec![NO_NODE]);
    // 3 and 1 have no parent in the tree; their edges name the ways 5 and 3
    assert_eq!(source_ways(&edges, 3), vec![5, NO_NODE]);
    assert_eq!(source_ways(&edges, 1), vec![3, NO_NODE]);
    // 6 was reached from 5 by an edge of the tree
    assert_eq!(source_ways(&edges, 6), Vec::<usize>::new());
    assert_eq!(source_ways(&edges, 8), Vec::<usize>::new());
    let sources = node_sources(&edges, 3);
    assert_eq!(sources.len(), 2);
    assert_eq!(sources[0].node, 3);
    assert_eq!(sources[0].src, 5);
    assert_eq!(sources[0].children, vec![4]);
    assert_eq!(sources[1].src, NO_NODE);
    assert_eq!(sources[1].children, Vec::<usize>::new());
    let sources = node_sources(&edges, 5);
    assert_eq!(sources.len(), 1);
    assert_eq!(sources[0].children, vec![6]);
    assert!(node_sources(&edges, 7).is_empty());
}

#[test]
fn plans_run_deepest_first() {
    let plan = backward_plan(&backward(), &degrees(), 1).unwrap();
    assert_eq!(plan.iter().map(|e| (e.par, e.node)).collect::<Vec<_>>(), vec![(3, 1), (5, 3)]);
    assert!(plan_resolved(&plan));
    let plan = forward_plan(&forward(), &degrees(), 2);
    assert_eq!(
        plan.iter().map(|e| (e.par, e.node)).collect::<Vec<_>>(),
        vec![(1, 2), (4, 8), (3, 4), (6, 7), (5, 6)]
    );
    assert!(plan_resolved(&plan));
    // rounds after the last are not weighed
    assert_eq!(forward_plan(&forward(), &degrees(), 0).len(), 1);
    assert_eq!(backward_plan(&backward(), &degrees(), 0).map(|p| p.len()), Some(1));
    assert_eq!(forward_plan(&vec![], &degrees(), 3).len(), 0);
}

#[test]
fn backward_plan_needs_every_way() {
    let edges = vec![edge(5, 3, 0, NO_NODE), edge(3, 1, 1, 7)];
    assert!(backward_plan(&edges, &degrees(), 1).is_none());
    // the edge that names the unknown way is in a round that is not weighed
    assert!(backward_plan(&edges, &degrees(), 0).is_some());
}

#[test]
fn a_plan_is_resolved_when_children_come_first() {
    // the child 7 of 6 is found in the same round as 6 itself: where it comes
    // after the edge that leads to 6, it is not resolved in time
    let edges = vec![edge(5, 6, 1, NO_NODE), edge(6, 7, 1, 5)];
    let plan = forward_plan(&edges, &degrees(), 1);
    assert!(!plan_resolved(&plan));
    let edges = vec![edge(6, 7, 1, 5), edge(5, 6, 1, NO_NODE)];
    let plan = forward_plan(&edges, &degrees(), 1);
    assert!(plan_resolved(&plan));
    // a child that is cut off by the last round is never resolved
    let edges = vec![edge(5, 6, 0, NO_NODE), edge(6, 7, 1, 5)];
    assert!(!plan_resolved(&forward_plan(&edges, &degrees(), 0)));
    assert!(plan_resolved(&forward_plan(&edges, &degrees(), 1)));
    assert!(plan_resolved(&Vec::<NodeInput>::new()));
}

#[test]
fn entry_before_looks_at_earlier_entries_only() {
    let plan = forward_plan(&forward(), &degrees(), 2);
    // the entry for 8 as found from 4 is the second
    assert!(!entry_before(&plan, 1, 8, 4));
    assert!(entry_before(&plan, 2, 8, 4));
    assert!(entry_before(&plan, 5, 8, 4));
    assert!(!entry_before(&plan, 5, 8, 3));
    assert!(!entry_before(&plan, 0, 2, 1));
}
