use tc_service::trust::engine::{diversity_for, diversity_scores};
use tc_service::trust::max_flow::FlowGraph;

#[test]
fn two_independent_paths() {
    // s→a→t and s→b→t — two disjoint paths
    let mut g = FlowGraph::new(4);
    // nodes: 0=s, 1=a, 2=b, 3=t
    g.add_edge(0, 1);
    g.add_edge(1, 3);
    g.add_edge(0, 2);
    g.add_edge(2, 3);
    assert_eq!(g.vertex_connectivity(0, 3), 2);
}

#[test]
fn shared_chokepoint() {
    // s→a→b→t and s→a→c→t — all paths go through a (chokepoint)
    let mut g = FlowGraph::new(5);
    // nodes: 0=s, 1=a, 2=b, 3=c, 4=t
    g.add_edge(0, 1);
    g.add_edge(1, 2);
    g.add_edge(2, 4);
    g.add_edge(1, 3);
    g.add_edge(3, 4);
    assert_eq!(g.vertex_connectivity(0, 4), 1);
}

#[test]
fn hub_and_spoke() {
    // s→hub→spoke — only one path
    let mut g = FlowGraph::new(3);
    // nodes: 0=s, 1=hub, 2=spoke(t)
    g.add_edge(0, 1);
    g.add_edge(1, 2);
    assert_eq!(g.vertex_connectivity(0, 2), 1);
}

#[test]
fn colluding_ring_single_attachment() {
    // s→bridge→ring (4 ring nodes in a cycle with bidirectional edges)
    // connectivity from s to any ring node should be 1 (only bridge connects)
    // nodes: 0=s, 1=bridge, 2=r0, 3=r1, 4=r2, 5=r3
    let mut g = FlowGraph::new(6);
    g.add_edge(0, 1); // s → bridge
    g.add_edge(1, 2); // bridge → ring entry
    // Ring cycle (bidirectional)
    g.add_edge(2, 3);
    g.add_edge(3, 4);
    g.add_edge(4, 5);
    g.add_edge(5, 2);
    g.add_edge(3, 2);
    g.add_edge(4, 3);
    g.add_edge(5, 4);
    g.add_edge(2, 5);
    // Connectivity from s to any ring node is 1 (bridge is the chokepoint)
    assert_eq!(g.vertex_connectivity(0, 3), 1);
    assert_eq!(g.vertex_connectivity(0, 4), 1);
    assert_eq!(g.vertex_connectivity(0, 5), 1);
}

#[test]
fn direct_edge() {
    // s→t directly
    let mut g = FlowGraph::new(2);
    g.add_edge(0, 1);
    assert_eq!(g.vertex_connectivity(0, 1), 1);
}

#[test]
fn unreachable() {
    // s→a, t disconnected
    let mut g = FlowGraph::new(3);
    // nodes: 0=s, 1=a, 2=t
    g.add_edge(0, 1);
    // no path to t
    assert_eq!(g.vertex_connectivity(0, 2), 0);
}

#[test]
fn three_independent_paths() {
    // s→a→t, s→b→t, s→c→t — three disjoint paths
    let mut g = FlowGraph::new(5);
    // nodes: 0=s, 1=a, 2=b, 3=c, 4=t
    g.add_edge(0, 1);
    g.add_edge(1, 4);
    g.add_edge(0, 2);
    g.add_edge(2, 4);
    g.add_edge(0, 3);
    g.add_edge(3, 4);
    assert_eq!(g.vertex_connectivity(0, 4), 3);
}

#[test]
fn source_equals_target_returns_zero() {
    // Connectivity from a node to itself is not meaningful — guard returns 0.
    let mut g = FlowGraph::new(3);
    g.add_edge(0, 1);
    g.add_edge(1, 2);
    assert_eq!(g.vertex_connectivity(0, 0), 0);
    assert_eq!(g.vertex_connectivity(2, 2), 0);
}

#[test]
fn out_of_bounds_source_returns_zero() {
    // An index >= n is not a valid node; guard returns 0.
    let mut g = FlowGraph::new(3);
    g.add_edge(0, 1);
    assert_eq!(g.vertex_connectivity(5, 1), 0);
}

#[test]
fn out_of_bounds_target_returns_zero() {
    // An index >= n is not a valid node; guard returns 0.
    let mut g = FlowGraph::new(3);
    g.add_edge(0, 1);
    assert_eq!(g.vertex_connectivity(0, 5), 0);
}

#[test]
fn parallel_edges_count_once_per_intermediate_node() {
    // Two copies of s→a and a→t still pass through the single node a.
    let mut g = FlowGraph::new(3);
    g.add_edge(0, 1);
    g.add_edge(0, 1);
    g.add_edge(1, 2);
    g.add_edge(1, 2);
    assert_eq!(g.vertex_connectivity(0, 2), 1);
}

#[test]
fn repeated_direct_edges_each_carry_a_path() {
    // Each copy of the direct edge s→t is a path with no intermediate node.
    let mut g = FlowGraph::new(2);
    g.add_edge(0, 1);
    g.add_edge(0, 1);
    assert_eq!(g.vertex_connectivity(0, 1), 2);
}

#[test]
fn connectivity_is_directed() {
    let mut g = FlowGraph::new(2);
    g.add_edge(0, 1);
    assert_eq!(g.vertex_connectivity(1, 0), 0);
}

#[test]
fn diversity_scores_pairs_every_non_anchor_user() {
    // anchor=10, users 20, 30, 40: 10→20→40, 10→30→40, 10→20
    let ids = vec![10u128, 20, 30, 40];
    let edges = vec![(10u128, 20u128), (20, 40), (10, 30), (30, 40), (99, 40)];
    let out = diversity_scores(&ids, &edges, 10);
    assert_eq!(out, vec![(20u128, 1), (30, 1), (40, 2)]);
}

#[test]
fn diversity_scores_ring_behind_bridge_scores_one() {
    let ids = vec![1u128, 2, 3, 4, 5];
    let edges = vec![(1u128, 2u128), (2, 3), (3, 4), (4, 5), (5, 3), (4, 3), (3, 5), (5, 4)];
    let out = diversity_scores(&ids, &edges, 1);
    assert_eq!(out, vec![(2u128, 1), (3, 1), (4, 1), (5, 1)]);
}

#[test]
fn diversity_scores_without_users_is_empty() {
    let out = diversity_scores(&vec![7u128], &vec![], 7);
    assert!(out.is_empty());
}

#[test]
fn diversity_for_pins_anchor_and_defaults_to_zero() {
    let diversities = vec![(2u128, 3), (3, 1), (2, 5)];
    assert_eq!(diversity_for(1, 1, &diversities), i32::MAX);
    assert_eq!(diversity_for(2, 1, &diversities), 5);
    assert_eq!(diversity_for(3, 1, &diversities), 1);
    assert_eq!(diversity_for(4, 1, &diversities), 0);
}

#[test]
fn adding_an_edge_raises_connectivity_by_at_most_one() {
    // s=0 → a=1 → t=3, then s → b=2 → t in two steps, then a direct edge.
    let mut g = FlowGraph::new(4);
    g.add_edge(0, 1);
    g.add_edge(1, 3);
    assert_eq!(g.vertex_connectivity(0, 3), 1);
    g.add_edge(0, 2);
    // Half of a second route does not help.
    assert_eq!(g.vertex_connectivity(0, 3), 1);
    g.add_edge(2, 3);
    assert_eq!(g.vertex_connectivity(0, 3), 2);
    g.add_edge(0, 3);
    assert_eq!(g.vertex_connectivity(0, 3), 3);
    // An edge back into the source changes nothing.
    g.add_edge(3, 0);
    assert_eq!(g.vertex_connectivity(0, 3), 3);
}

#[test]
fn connectivity_is_bounded_by_degrees() {
    // Three edges out of s but only two into t.
    let mut g = FlowGraph::new(5);
    g.add_edge(0, 1);
    g.add_edge(0, 2);
    g.add_edge(0, 3);
    g.add_edge(1, 4);
    g.add_edge(2, 4);
    g.add_edge(3, 1);
    assert_eq!(g.vertex_connectivity(0, 4), 2);
}
