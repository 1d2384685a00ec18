use impact_tracing::fuzzy_traceback::{
    children, children_via, deepest_first, drop_reversed, edges_at_depth, find_edge,
    list_contains, merge_backward, nodes_of, parents, record_edge, TracedEdge, NO_NODE,
};

fn edge(from: usize, to: usize, depth: usize, via: usize) -> TracedEdge {
    TracedEdge { from, to, depth, via }
}

// The backward chain 5 -> 3 -> 1 (found from 5 upwards) and the forward
// tree below each of its nodes.
fn backward() -> Vec<TracedEdge> {
    vec![edge(5, 3, 0, NO_NODE), edge(3, 1, 1, 5)]
}

fn forward() -> Vec<TracedEdge> {
    vec![
        edge(5, 6, 0, NO_NODE),
        edge(3, 5, 1, 5),
        edge(3, 4, 1, 5),
        edge(6, 7, 1, 5),
        edge(1, 3, 2, 3),
        edge(1, 2, 2, 3),
        edge(4, 8, 2, 3),
    ]
}

#[test]
fn find_edge_takes_the_first_record() {
    let edges = vec![edge(1, 2, 0, 9), edge(2, 1, 1, 9), edge(1, 2, 5, 8)];
    assert_eq!(find_edge(&edges, 1, 2), Some(edge(1, 2, 0, 9)));
    assert_eq!(find_edge(&edges, 2, 1), Some(edge(2, 1, 1, 9)));
    assert_eq!(find_edge(&edges, 2, 2), None);
    assert_eq!(find_edge(&vec![], 1, 2), None);
}

#[test]
fn record_edge_lets_the_first_record_stand() {
    let mut edges = Vec::new();
    assert!(record_edge(&mut edges, edge(1, 2, 0, NO_NODE)));
    assert!(record_edge(&mut edges, edge(2, 1, 1, 1)));
    assert!(!record_edge(&mut edges, edge(1, 2, 3, 7)));
    assert_eq!(edges, vec![edge(1, 2, 0, NO_NODE), edge(2, 1, 1, 1)]);
}

#[test]
fn drop_reversed_lets_the_backward_chain_decide() {
    let kept = drop_reversed(&forward(), &backward());
    assert_eq!(
        kept,
        vec![
            edge(5, 6, 0, NO_NODE),
            edge(3, 4, 1, 5),
            edge(6, 7, 1, 5),
            edge(1, 2, 2, 3),
            edge(4, 8, 2, 3),
        ]
    );
    assert_eq!(drop_reversed(&forward(), &vec![]), forward());
    assert_eq!(drop_reversed(&vec![], &backward()), vec![]);
    // an edge in the same direction as a backward edge stays
    assert_eq!(drop_reversed(&vec![edge(5, 3, 0, 0)], &backward()), vec![edge(5, 3, 0, 0)]);
}

#[test]
fn merge_backward_turns_the_chain_forward() {
    let fwd = drop_reversed(&forward(), &backward());
    let all = merge_backward(&fwd, &backward());
    let mut expected = fwd.clone();
    expected.push(edge(3, 5, 0, NO_NODE));
    expected.push(edge(1, 3, 1, 5));
    assert_eq!(all, expected);
    // what the forward tree holds already is not added again
    assert_eq!(merge_backward(&forward(), &backward()), forward());
    assert_eq!(merge_backward(&vec![], &vec![]), vec![]);
}

#[test]
fn children_and_parents_follow_the_edges() {
    let fwd = forward();
    assert_eq!(children(&fwd, 3), vec![5, 4]);
    assert_eq!(children(&fwd, 1), vec![3, 2]);
    assert_eq!(children(&fwd, 8), vec![]);
    assert_eq!(parents(&fwd, 3), vec![1]);
    assert_eq!(parents(&fwd, 5), vec![3]);
    assert_eq!(parents(&fwd, 1), vec![]);
    let twice = vec![edge(1, 9, 0, 0), edge(2, 9, 0, 0), edge(9, 1, 1, 2)];
    assert_eq!(parents(&twice, 9), vec![1, 2]);
}

#[test]
fn children_via_tells_the_ways_apart() {
    let edges = vec![edge(3, 4, 1, 5), edge(3, 6, 1, 7), edge(3, 8, 2, 5), edge(4, 9, 2, 5)];
    assert_eq!(children_via(&edges, 3, 5), vec![4, 8]);
    assert_eq!(children_via(&edges, 3, 7), vec![6]);
    assert_eq!(children_via(&edges, 3, NO_NODE), vec![]);
    assert_eq!(children_via(&edges, 4, 5), vec![9]);
}

#[test]
fn deepest_first_orders_by_round() {
    let order = deepest_first(&forward(), 2);
    assert_eq!(
        order,
        vec![
            edge(1, 3, 2, 3),
            edge(1, 2, 2, 3),
            edge(4, 8, 2, 3),
            edge(3, 5, 1, 5),
            edge(3, 4, 1, 5),
            edge(6, 7, 1, 5),
            edge(5, 6, 0, NO_NODE),
        ]
    );
    // rounds after the last are left out
    assert_eq!(deepest_first(&forward(), 0), vec![edge(5, 6, 0, NO_NODE)]);
    assert_eq!(deepest_first(&forward(), 5).len(), 7);
    assert_eq!(deepest_first(&vec![], 3), vec![]);
    assert_eq!(edges_at_depth(&forward(), 1).len(), 3);
    assert_eq!(edges_at_depth(&forward(), 9), vec![]);
}

#[test]
fn nodes_of_lists_each_node_once() {
    assert_eq!(nodes_of(&forward()), vec![5, 6, 3, 4, 7, 1, 2, 8]);
    assert_eq!(nodes_of(&vec![edge(2, 2, 0, 0)]), vec![2]);
    assert_eq!(nodes_of(&vec![]), Vec::<usize>::new());
    assert!(list_contains(&vec![1, 2], 2));
    assert!(!list_contains(&vec![1, 2], 3));
}
