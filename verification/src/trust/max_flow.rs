//! Vertex connectivity via Edmonds-Karp max-flow on a vertex-split graph.
//!
//! Each node i is split into `i_in` (2*i) and `i_out` (2*i+1). Internal edges
//! carry capacity 1 for intermediate nodes, or n+1 for source/target (effectively
//! infinite). A graph edge (u, v) becomes `u_out → v_in` with capacity 1.
//! Max-flow from `source_out` to `target_in` equals the vertex connectivity.
use std::collections::VecDeque;
use vstd::prelude::*;

use crate::trust::paths::{
    is_max_disjoint_route_count, lemma_connectivity_counts_disjoint_routes,
    lemma_route_count_within_degrees,
};
use crate::trust::flow_theory::{
    is_max_flow_value, is_residual_of, lemma_residual_certifies_max_flow, lemma_sum_add,
    lemma_sum_ext, lemma_sum_single, lemma_sum_term_le, lemma_sum_update, lemma_sum_zero, outflow,
    sum,
};

verus! {

/// Index of the entry half of node `i` in the split graph.
pub open spec fn split_in(i: int) -> int {
    2 * i
}

/// Index of the exit half of node `i` in the split graph.
pub open spec fn split_out(i: int) -> int {
    2 * i + 1
}

/// Number of edges in `edges` that become the split-graph edge `x → y`.
pub open spec fn edge_multiplicity(edges: Seq<(usize, usize)>, x: int, y: int) -> int
    decreases edges.len(),
{
    if edges.len() == 0 {
        0
    } else {
        edge_multiplicity(edges.drop_last(), x, y) + if split_out(edges.last().0 as int) == x
            && split_in(edges.last().1 as int) == y {
            1int
        } else {
            0int
        }
    }
}

/// Capacity of the internal edge `i_in → i_out`: `n + 1` for the two
/// endpoints of the query, 1 for every other node; 0 for any other pair.
pub open spec fn node_capacity(n: nat, source: int, target: int, x: int, y: int) -> int {
    if 0 <= x < 2 * n && x % 2 == 0 && y == x + 1 {
        if x / 2 == source || x / 2 == target {
            n + 1int
        } else {
            1
        }
    } else {
        0
    }
}

/// Capacities of the split graph built for a query from `source` to `target`.
pub open spec fn split_capacity(n: nat, edges: Seq<(usize, usize)>, source: int, target: int) -> spec_fn(
    int,
    int,
) -> int {
    |x: int, y: int| node_capacity(n, source, target, x, y) + edge_multiplicity(edges, x, y)
}

/// Every edge joins two of the `n` nodes.
pub open spec fn edges_in_range(n: nat, edges: Seq<(usize, usize)>) -> bool {
    forall|k: int| 0 <= k < edges.len() ==> (#[trigger] edges[k]).0 < n && edges[k].1 < n
}

/// Number of edges leaving node `u`.
pub open spec fn out_degree(edges: Seq<(usize, usize)>, u: int) -> int
    decreases edges.len(),
{
    if edges.len() == 0 {
        0
    } else {
        out_degree(edges.drop_last(), u) + if edges.last().0 as int == u {
            1int
        } else {
            0int
        }
    }
}

/// Number of edges entering node `v`.
pub open spec fn in_degree(edges: Seq<(usize, usize)>, v: int) -> int
    decreases edges.len(),
{
    if edges.len() == 0 {
        0
    } else {
        in_degree(edges.drop_last(), v) + if edges.last().1 as int == v {
            1int
        } else {
            0int
        }
    }
}

/// Number of copies of the edge `u → v`.
pub open spec fn copies(edges: Seq<(usize, usize)>, u: int, v: int) -> int {
    edge_multiplicity(edges, split_out(u), split_in(v))
}

/// The counts a query from `source` to `target` works with fit in `i32`:
/// the node count (below `i32::MAX`), the edges leaving the source (which
/// bound the flow), and the capacity between the two halves of any pair of
/// nodes (the copies of an edge, plus the node's own capacity for a loop).
pub open spec fn counts_fit_i32(n: nat, edges: Seq<(usize, usize)>, source: int, target: int) -> bool {
    &&& n < i32::MAX
    &&& out_degree(edges, source) <= i32::MAX
    &&& forall|u: int, v: int|
        0 <= u < n && 0 <= v < n ==> #[trigger] copies(edges, u, v) + (if u == v {
            node_capacity(n, source, target, split_in(u), split_out(u))
        } else {
            0
        }) <= i32::MAX
}

/// The counts of queries from `source` to every node fit in `i32`.
pub open spec fn graph_fits_i32(n: nat, edges: Seq<(usize, usize)>, source: int) -> bool {
    &&& n < i32::MAX
    &&& out_degree(edges, source) <= i32::MAX
    &&& forall|u: int, v: int|
        0 <= u < n && 0 <= v < n ==> #[trigger] copies(edges, u, v) + (if u == v {
            n + 1
        } else {
            0
        }) <= i32::MAX
}

/// Fitting every query from `source` fits the query to `target`.
pub proof fn lemma_graph_fits_query(n: nat, edges: Seq<(usize, usize)>, source: int, target: int)
    requires
        graph_fits_i32(n, edges, source),
    ensures
        counts_fit_i32(n, edges, source, target),
{
    assert forall|u: int, v: int| 0 <= u < n && 0 <= v < n implies #[trigger] copies(edges, u, v) + (if u == v {
        node_capacity(n, source, target, split_in(u), split_out(u))
    } else {
        0
    }) <= i32::MAX by {
        assert(node_capacity(n, source, target, split_in(u), split_out(u)) <= n + 1);
    }
}

/// Entry `(x, y)` of a matrix stored as rows.
pub open spec fn entry(m: Seq<Vec<i32>>, x: int, y: int) -> int {
    m[x]@[y] as int
}

/// The matrix as a function on pairs of indices.
pub open spec fn as_fn(m: Seq<Vec<i32>>) -> spec_fn(int, int) -> int {
    |x: int, y: int| entry(m, x, y)
}

/// `m` is a `size × size` matrix.
pub open spec fn is_square(m: Seq<Vec<i32>>, size: nat) -> bool {
    &&& m.len() == size
    &&& forall|i: int| 0 <= i < size ==> (#[trigger] m[i])@.len() == size
}

/// Number of unvisited entries (`usize::MAX`) in a parent table.
pub open spec fn unvisited_count(parent: Seq<usize>) -> nat
    decreases parent.len(),
{
    if parent.len() == 0 {
        0
    } else {
        unvisited_count(parent.drop_last()) + if parent.last() == usize::MAX {
            1nat
        } else {
            0nat
        }
    }
}

/// `parent` and `level` describe a breadth-first search tree rooted at
/// `source` whose edges all have positive residual capacity.
pub open spec fn is_search_tree(
    cap: Seq<Vec<i32>>,
    source: int,
    parent: Seq<usize>,
    level: Seq<int>,
) -> bool {
    &&& parent.len() == cap.len()
    &&& level.len() == cap.len()
    &&& 0 <= source < cap.len()
    &&& parent[source] == source
    &&& level[source] == 0
    &&& forall|v: int|
        0 <= v < cap.len() && v != source && #[trigger] parent[v] != usize::MAX ==> {
            &&& parent[v] < cap.len()
            &&& parent[parent[v] as int] != usize::MAX
            &&& entry(cap, parent[v] as int, v) > 0
            &&& level[v] == level[parent[v] as int] + 1
        }
    &&& forall|v: int| 0 <= v < cap.len() ==> 0 <= #[trigger] level[v]
}

/// Step `i` of `path` follows the search tree backwards and still offers
/// `amount` units of residual capacity.
pub open spec fn step_ok(cap: Seq<Vec<i32>>, parent: Seq<usize>, path: Seq<usize>, amount: i32, i: int) -> bool {
    &&& parent[path[i] as int] == path[i - 1]
    &&& amount <= entry(cap, path[i - 1] as int, path[i] as int)
}

/// No edge of positive residual capacity leaves the marked set.
pub open spec fn is_closed_set(cap: Seq<Vec<i32>>, mark: Seq<bool>) -> bool {
    forall|u: int, v: int|
        0 <= u < cap.len() && 0 <= v < cap.len() && #[trigger] mark[u] && !#[trigger] mark[v]
            ==> entry(cap, u, v) <= 0
}

/// Every queued vertex is a visited vertex, and none is queued twice.
#[verifier::opaque]
pub open spec fn queue_ok(q: Seq<usize>, parent: Seq<usize>, size: nat) -> bool {
    &&& forall|i: int|
        0 <= i < q.len() ==> #[trigger] q[i] < size && parent[q[i] as int] != usize::MAX
    &&& forall|i: int, j: int| 0 <= i < j < q.len() ==> #[trigger] q[i] != #[trigger] q[j]
}

/// Every visited vertex that has left the queue, except possibly `u`, has
/// had all its residual neighbours visited.
#[verifier::opaque]
pub open spec fn closed_except(cap: Seq<Vec<i32>>, parent: Seq<usize>, q: Seq<usize>, u: int) -> bool {
    forall|x: int, y: int|
        0 <= x < cap.len() && 0 <= y < cap.len() && x != u && #[trigger] parent[x] != usize::MAX
            && !q.contains(x as usize) && entry(cap, x, y) > 0 ==> #[trigger] parent[y]
            != usize::MAX
}

proof fn lemma_search_start(
    cap: Seq<Vec<i32>>,
    source: int,
    parent: Seq<usize>,
    level: Seq<int>,
    q: Seq<usize>,
)
    requires
        cap.len() <= usize::MAX,
        0 <= source < cap.len(),
        parent.len() == cap.len(),
        level.len() == cap.len(),
        forall|j: int| 0 <= j < cap.len() ==> #[trigger] level[j] == 0,
        parent[source] == source,
        forall|j: int| 0 <= j < cap.len() && j != source ==> #[trigger] parent[j] == usize::MAX,
        q == seq![source as usize],
    ensures
        is_search_tree(cap, source, parent, level),
        queue_ok(q, parent, cap.len()),
        closed_except(cap, parent, q, -1),
{
    reveal(queue_ok);
    reveal(closed_except);
    assert(q.len() == 1 && q[0] == source as usize);
    assert forall|x: int, y: int|
        0 <= x < cap.len() && 0 <= y < cap.len() && x != -1 && #[trigger] parent[x] != usize::MAX
            && !q.contains(x as usize) && entry(cap, x, y) > 0 implies #[trigger] parent[y]
        != usize::MAX by {
        assert(x == source);
        assert(q[0] == source as usize);
    }
}

proof fn lemma_search_pop(cap: Seq<Vec<i32>>, parent: Seq<usize>, q0: Seq<usize>, q: Seq<usize>)
    requires
        cap.len() <= usize::MAX,
        q0.len() > 0,
        q == q0.subrange(1, q0.len() as int),
        queue_ok(q0, parent, cap.len()),
        closed_except(cap, parent, q0, -1),
    ensures
        q0[0] < cap.len(),
        parent[q0[0] as int] != usize::MAX,
        queue_ok(q, parent, cap.len()),
        !q.contains(q0[0]),
        closed_except(cap, parent, q, q0[0] as int),
{
    reveal(queue_ok);
    reveal(closed_except);
    let u = q0[0];
    assert(q0[0] < cap.len() && parent[q0[0] as int] != usize::MAX);
    assert forall|i: int| 0 <= i < q.len() implies #[trigger] q[i] < cap.len() && parent[q[i] as int]
        != usize::MAX by {
        assert(q[i] == q0[i + 1]);
    }
    assert forall|i: int, j: int| 0 <= i < j < q.len() implies #[trigger] q[i] != #[trigger] q[j] by {
        assert(q[i] == q0[i + 1]);
        assert(q[j] == q0[j + 1]);
    }
    if q.contains(u) {
        let i = choose|i: int| 0 <= i < q.len() && q[i] == u;
        assert(q0[i + 1] == q0[0]);
    }
    assert forall|x: int, y: int|
        0 <= x < cap.len() && 0 <= y < cap.len() && x != u as int && #[trigger] parent[x]
            != usize::MAX && !q.contains(x as usize) && entry(cap, x, y) > 0 implies #[trigger] parent[y]
        != usize::MAX by {
        if q0.contains(x as usize) {
            let i = choose|i: int| 0 <= i < q0.len() && q0[i] == x as usize;
            assert(q0[i] as int == x);
            assert(i != 0);
            assert(q[i - 1] == x as usize);
        }
    }
}

proof fn lemma_search_visit_tree(
    cap: Seq<Vec<i32>>,
    source: int,
    parent: Seq<usize>,
    level: Seq<int>,
    u: int,
    v: int,
)
    requires
        cap.len() <= usize::MAX,
        is_search_tree(cap, source, parent, level),
        0 <= u < cap.len(),
        0 <= v < cap.len(),
        parent[u] != usize::MAX,
        parent[v] == usize::MAX,
        entry(cap, u, v) > 0,
    ensures
        is_search_tree(
            cap,
            source,
            parent.update(v, u as usize),
            level.update(v, level[u] + 1),
        ),
{
    let p2 = parent.update(v, u as usize);
    let l2 = level.update(v, level[u] + 1);
    assert(v != source);
    assert(p2[v] as int == u);
    assert(p2[u] == parent[u]);
    assert(l2[u] == level[u]);
    assert forall|w: int| 0 <= w < cap.len() && w != source && #[trigger] p2[w] != usize::MAX implies {
        &&& p2[w] < cap.len()
        &&& p2[p2[w] as int] != usize::MAX
        &&& entry(cap, p2[w] as int, w) > 0
        &&& l2[w] == l2[p2[w] as int] + 1
    } by {
        if w != v {
            assert(parent[w] != usize::MAX);
            assert(parent[parent[w] as int] != usize::MAX);
            assert(parent[w] as int != v);
            assert(p2[w] == parent[w]);
            assert(l2[parent[w] as int] == level[parent[w] as int]);
        }
    }
    assert forall|w: int| 0 <= w < cap.len() implies 0 <= #[trigger] l2[w] by {
        assert(0 <= level[u]);
        assert(0 <= level[w]);
    }
}

proof fn lemma_search_visit_queue(
    cap: Seq<Vec<i32>>,
    parent: Seq<usize>,
    q: Seq<usize>,
    u: int,
    v: int,
)
    requires
        cap.len() <= usize::MAX,
        0 <= u < cap.len(),
        0 <= v < cap.len(),
        u != v,
        parent.len() == cap.len(),
        parent[v] == usize::MAX,
        queue_ok(q, parent, cap.len()),
        closed_except(cap, parent, q, u),
    ensures
        queue_ok(q.push(v as usize), parent.update(v, u as usize), cap.len()),
        closed_except(cap, parent.update(v, u as usize), q.push(v as usize), u),
{
    reveal(queue_ok);
    reveal(closed_except);
    let p2 = parent.update(v, u as usize);
    let q2 = q.push(v as usize);
    assert forall|i: int| 0 <= i < q.len() implies #[trigger] q[i] != v as usize by {
        assert(parent[q[i] as int] != usize::MAX);
    }
    assert forall|i: int| 0 <= i < q2.len() implies #[trigger] q2[i] < cap.len() && p2[q2[i] as int]
        != usize::MAX by {
        if i < q.len() {
            assert(q2[i] == q[i]);
        }
    }
    assert forall|i: int, j: int| 0 <= i < j < q2.len() implies #[trigger] q2[i] != #[trigger] q2[j] by {
        assert(q2[i] == q[i]);
        if j < q.len() {
            assert(q2[j] == q[j]);
        }
    }
    assert forall|x: int, y: int|
        0 <= x < cap.len() && 0 <= y < cap.len() && x != u && #[trigger] p2[x] != usize::MAX
            && !q2.contains(x as usize) && entry(cap, x, y) > 0 implies #[trigger] p2[y]
        != usize::MAX by {
        assert(q2[q.len() as int] == v as usize);
        assert(x != v);
        assert(parent[x] != usize::MAX);
        if q.contains(x as usize) {
            let i = choose|i: int| 0 <= i < q.len() && q[i] == x as usize;
            assert(q2[i] == x as usize);
        }
        assert(parent[y] != usize::MAX);
    }
}

proof fn lemma_search_finish(cap: Seq<Vec<i32>>, parent: Seq<usize>, q: Seq<usize>, u: int)
    requires
        cap.len() <= usize::MAX,
        0 <= u < cap.len(),
        closed_except(cap, parent, q, u),
        forall|y: int|
            0 <= y < cap.len() && entry(cap, u, y) > 0 ==> #[trigger] parent[y] != usize::MAX,
    ensures
        closed_except(cap, parent, q, -1),
{
    reveal(closed_except);
}

proof fn lemma_search_exhausted(
    cap: Seq<Vec<i32>>,
    source: int,
    sink: int,
    parent: Seq<usize>,
    q: Seq<usize>,
)
    requires
        cap.len() <= usize::MAX,
        parent.len() == cap.len(),
        0 <= source < cap.len(),
        0 <= sink < cap.len(),
        parent[source] != usize::MAX,
        parent[sink] == usize::MAX,
        q.len() == 0,
        closed_except(cap, parent, q, -1),
    ensures
        exists|mark: Seq<bool>|
            {
                &&& mark.len() == cap.len()
                &&& #[trigger] mark[source]
                &&& !mark[sink]
                &&& is_closed_set(cap, mark)
            },
{
    reveal(closed_except);
    let mark = Seq::new(cap.len(), |j: int| parent[j] != usize::MAX);
    assert forall|x: int, y: int|
        0 <= x < cap.len() && 0 <= y < cap.len() && #[trigger] mark[x] && !#[trigger] mark[y]
            implies entry(cap, x, y) <= 0 by {
        assert(!q.contains(x as usize));
        if entry(cap, x, y) > 0 {
            assert(parent[y] != usize::MAX);
        }
    }
    assert(mark[source]);
}

proof fn lemma_unvisited_update(parent: Seq<usize>, k: int, val: usize)
    requires
        0 <= k < parent.len(),
        parent[k] == usize::MAX,
        val != usize::MAX,
    ensures
        unvisited_count(parent.update(k, val)) + 1 == unvisited_count(parent),
    decreases parent.len(),
{
    let p2 = parent.update(k, val);
    if k == parent.len() - 1 {
        assert(p2.drop_last() =~= parent.drop_last());
    } else {
        assert(p2.drop_last() =~= parent.drop_last().update(k, val));
        lemma_unvisited_update(parent.drop_last(), k, val);
    }
}

proof fn lemma_multiplicity_bounds(edges: Seq<(usize, usize)>, x: int, y: int)
    ensures
        0 <= edge_multiplicity(edges, x, y) <= edges.len(),
        edge_multiplicity(edges, x, y) > 0 ==> x % 2 == 1 && y % 2 == 0,
    decreases edges.len(),
{
    if edges.len() > 0 {
        lemma_multiplicity_bounds(edges.drop_last(), x, y);
    }
}

/// The split-graph edges leaving the exit half of `u` number at most the
/// edges leaving `u`.
proof fn lemma_multiplicity_row(edges: Seq<(usize, usize)>, size: nat, u: int)
    ensures
        0 <= sum(size, |y: int| edge_multiplicity(edges, split_out(u), y)) <= out_degree(edges, u),
    decreases edges.len(),
{
    let x = split_out(u);
    if edges.len() == 0 {
        lemma_sum_zero(size, |y: int| edge_multiplicity(edges, x, y));
    } else {
        let rest = edges.drop_last();
        let e = edges.last();
        lemma_multiplicity_row(rest, size, u);
        let ind = |y: int|
            if split_out(e.0 as int) == x && split_in(e.1 as int) == y {
                1int
            } else {
                0int
            };
        lemma_sum_add(
            size,
            |y: int| edge_multiplicity(rest, x, y),
            ind,
            |y: int| edge_multiplicity(edges, x, y),
        );
        let y0 = split_in(e.1 as int);
        if 0 <= y0 < size {
            lemma_sum_single(size, ind, y0);
        } else {
            lemma_sum_zero(size, ind);
        }
    }
}

/// A prefix of the edge list has no more copies of a split edge than the whole.
proof fn lemma_multiplicity_prefix(edges: Seq<(usize, usize)>, k: int, x: int, y: int)
    requires
        0 <= k <= edges.len(),
    ensures
        edge_multiplicity(edges.take(k), x, y) <= edge_multiplicity(edges, x, y),
    decreases edges.len(),
{
    if k == edges.len() {
        assert(edges.take(k) =~= edges);
    } else {
        assert(edges.drop_last().take(k) =~= edges.take(k));
        lemma_multiplicity_prefix(edges.drop_last(), k, x, y);
    }
}

/// Capacities are not negative, none leaves `source_out` through a node's
/// own edge, and when the query's counts fit in `i32` so does the capacity
/// between the two ends of any pair.
proof fn lemma_split_capacity_bounds(
    n: nat,
    edges: Seq<(usize, usize)>,
    source: int,
    target: int,
    x: int,
    y: int,
)
    requires
        0 <= source < n,
    ensures
        0 <= split_capacity(n, edges, source, target)(x, y),
        node_capacity(n, source, target, split_out(source), y) == 0,
        counts_fit_i32(n, edges, source, target) && 0 <= x < 2 * n && 0 <= y < 2 * n ==> split_capacity(
            n,
            edges,
            source,
            target,
        )(x, y) + split_capacity(n, edges, source, target)(y, x) <= i32::MAX,
{
    lemma_multiplicity_bounds(edges, x, y);
    lemma_multiplicity_bounds(edges, y, x);
    if counts_fit_i32(n, edges, source, target) && 0 <= x < 2 * n && 0 <= y < 2 * n {
        let c = split_capacity(n, edges, source, target);
        if x % 2 == 1 && y % 2 == 0 {
            let u = (x - 1) / 2;
            let v = y / 2;
            assert(split_out(u) == x && split_in(v) == y);
            assert(copies(edges, u, v) + (if u == v {
                node_capacity(n, source, target, split_in(u), split_out(u))
            } else {
                0
            }) <= i32::MAX);
            assert(c(x, y) == copies(edges, u, v));
            if u == v {
                assert(c(y, x) == node_capacity(n, source, target, split_in(u), split_out(u)));
            } else {
                assert(c(y, x) == 0);
            }
        } else if x % 2 == 0 && y % 2 == 1 {
            let u = (y - 1) / 2;
            let v = x / 2;
            assert(split_out(u) == y && split_in(v) == x);
            assert(copies(edges, u, v) + (if u == v {
                node_capacity(n, source, target, split_in(u), split_out(u))
            } else {
                0
            }) <= i32::MAX);
            assert(c(y, x) == copies(edges, u, v));
            if u == v {
                assert(c(x, y) == node_capacity(n, source, target, split_in(u), split_out(u)));
            } else {
                assert(c(x, y) == 0);
            }
        } else {
            assert(c(x, y) == 0);
            assert(c(y, x) == 0);
        }
    }
}

/// The total capacity out of `source_out` is at most the source's out-degree.
proof fn lemma_source_row_bound(n: nat, edges: Seq<(usize, usize)>, source: int, target: int)
    requires
        0 <= source < n,
    ensures
        0 <= outflow(2 * n, split_capacity(n, edges, source, target), split_out(source))
            <= out_degree(edges, source),
{
    let c = split_capacity(n, edges, source, target);
    let s = split_out(source);
    assert forall|y: int| 0 <= y < 2 * n implies #[trigger] c(s, y) == edge_multiplicity(
        edges,
        s,
        y,
    ) by {
        lemma_split_capacity_bounds(n, edges, source, target, s, y);
    }
    lemma_sum_ext(2 * n, |y: int| c(s, y), |y: int| edge_multiplicity(edges, s, y));
    lemma_multiplicity_row(edges, 2 * n, source);
}

/// Directed graph whose vertex connectivity can be queried.
pub struct FlowGraph {
    n: usize,
    /// Directed edges stored as (from, to) pairs.
    edges: Vec<(usize, usize)>,
}

impl View for FlowGraph {
    /// The number of nodes and the edges added so far, in order.
    type V = (nat, Seq<(usize, usize)>);

    closed spec fn view(&self) -> (nat, Seq<(usize, usize)>) {
        (self.n as nat, self.edges@)
    }
}

/// Write `val` into entry `(x, y)` of a matrix stored as rows.
fn set_entry(cap: &mut Vec<Vec<i32>>, x: usize, y: usize, val: i32)
    requires
        x < old(cap)@.len(),
        y < old(cap)@[x as int]@.len(),
    ensures
        final(cap)@.len() == old(cap)@.len(),
        forall|i: int|
            0 <= i < old(cap)@.len() ==> (#[trigger] final(cap)@[i])@.len() == old(cap)@[i]@.len(),
        forall|i: int, j: int|
            #![trigger entry(final(cap)@, i, j)]
            0 <= i < old(cap)@.len() && 0 <= j < old(cap)@[i]@.len() ==> entry(final(cap)@, i, j)
                == if i == x && j == y {
                val as int
            } else {
                entry(old(cap)@, i, j)
            },
{
    let mut row: Vec<i32> = Vec::new();
    cap.set_and_swap(x, &mut row);
    row.set(y, val);
    cap.set_and_swap(x, &mut row);
}

impl FlowGraph {
    /// Create a flow graph for `n` nodes (indices `0..n`).
    pub fn new(n: usize) -> (g: Self)
        ensures
            g@ == (n as nat, Seq::<(usize, usize)>::empty()),
    {
        Self { n, edges: Vec::new() }
    }

    fn node_in(i: usize) -> (r: usize)
        requires
            2 * i <= usize::MAX,
        ensures
            r == split_in(i as int),
    {
        2 * i
    }

    fn node_out(i: usize) -> (r: usize)
        requires
            2 * i + 1 <= usize::MAX,
        ensures
            r == split_out(i as int),
    {
        2 * i + 1
    }

    /// Add a directed edge from `from` to `to`.
    pub fn add_edge(&mut self, from: usize, to: usize)
        ensures
            final(self)@ == (old(self)@.0, old(self)@.1.push((from, to))),
    {
        self.edges.push((from, to));
    }

    /// Build a fresh capacity matrix for the given source and target.
    ///
    /// Internal edges: capacity 1 for intermediate nodes, n+1 for source/target.
    /// Cross edges: capacity 1 per edge (prevents reuse of the same logical edge).
    fn build_cap(&self, source: usize, target: usize) -> (cap: Vec<Vec<i32>>)
        requires
            source < self.n,
            target < self.n,
            edges_in_range(self.n as nat, self.edges@),
            counts_fit_i32(self.n as nat, self.edges@, source as int, target as int),
        ensures
            is_square(cap@, 2 * self.n as nat),
            forall|x: int, y: int|
                #![trigger entry(cap@, x, y)]
                0 <= x < 2 * self.n && 0 <= y < 2 * self.n ==> entry(cap@, x, y) == split_capacity(
                    self.n as nat,
                    self.edges@,
                    source as int,
                    target as int,
                )(x, y),
    {
        let n = self.n;
        let inf = (n as i32) + 1;
        let size = 2 * n;
        let ghost nn = n as nat;
        let mut cap: Vec<Vec<i32>> = Vec::new();
        let mut r: usize = 0;
        while r < size
            invariant
                r <= size,
                size == 2 * n,
                cap@.len() == r,
                forall|i: int| 0 <= i < r ==> (#[trigger] cap@[i])@.len() == size,
                forall|i: int, j: int|
                    #![trigger entry(cap@, i, j)]
                    0 <= i < r && 0 <= j < size ==> entry(cap@, i, j) == 0,
            decreases size - r,
        {
            let mut row: Vec<i32> = Vec::new();
            let mut k: usize = 0;
            while k < size
                invariant
                    k <= size,
                    row@.len() == k,
                    forall|j: int| 0 <= j < k ==> row@[j] == 0,
                decreases size - k,
            {
                row.push(0);
                k += 1;
            }
            let ghost before = cap@;
            cap.push(row);
            proof {
                assert forall|i: int, j: int| 0 <= i < r + 1 && 0 <= j < size implies #[trigger] entry(
                    cap@,
                    i,
                    j,
                ) == 0 by {
                    if i < r {
                        assert(cap@[i] == before[i]);
                        assert(entry(before, i, j) == 0);
                    } else {
                        assert(cap@[i] == row);
                        assert(row@[j] == 0);
                    }
                }
            }
            r += 1;
        }

        // Internal node edges
        let mut i: usize = 0;
        while i < n
            invariant
                i <= n,
                n == self.n,
                nn == n as nat,
                size == 2 * n,
                inf == n + 1,
                source < n,
                target < n,
                is_square(cap@, size as nat),
                forall|x: int, y: int|
                    #![trigger entry(cap@, x, y)]
                    0 <= x < size && 0 <= y < size ==> entry(cap@, x, y) == if x < 2 * i {
                        node_capacity(nn, source as int, target as int, x, y)
                    } else {
                        0
                    },
            decreases n - i,
        {
            let c = if i == source || i == target {
                inf
            } else {
                1
            };
            let xi = Self::node_in(i);
            let yi = Self::node_out(i);
            set_entry(&mut cap, xi, yi, c);
            proof {
                assert forall|x: int, y: int|
                    0 <= x < size && 0 <= y < size implies #[trigger] entry(cap@, x, y) == if x < 2
                    * (i + 1) {
                    node_capacity(nn, source as int, target as int, x, y)
                } else {
                    0
                } by {
                    if x == 2 * i {
                        assert(x % 2 == 0 && x / 2 == i);
                        if y == x + 1 {
                            assert(entry(cap@, x, y) == c as int);
                        } else {
                            assert(entry(cap@, x, y) == 0);
                        }
                    } else if x == 2 * i + 1 {
                        assert(x % 2 == 1);
                        assert(entry(cap@, x, y) == 0);
                    } else {
                        assert(entry(cap@, x, y) == if x < 2 * i {
                            node_capacity(nn, source as int, target as int, x, y)
                        } else {
                            0
                        });
                    }
                }
            }
            i += 1;
        }

        // Cross edges from the graph structure
        let mut k: usize = 0;
        while k < self.edges.len()
            invariant
                k <= self.edges@.len(),
                n == self.n,
                nn == n as nat,
                size == 2 * n,
                source < n,
                target < n,
                edges_in_range(nn, self.edges@),
                counts_fit_i32(nn, self.edges@, source as int, target as int),
                is_square(cap@, size as nat),
                forall|x: int, y: int|
                    #![trigger entry(cap@, x, y)]
                    0 <= x < size && 0 <= y < size ==> entry(cap@, x, y) == node_capacity(
                        nn,
                        source as int,
                        target as int,
                        x,
                        y,
                    ) + edge_multiplicity(self.edges@.take(k as int), x, y),
            decreases self.edges@.len() - k,
        {
            let (from, to) = self.edges[k];
            proof {
                assert(self.edges@[k as int].0 < n && self.edges@[k as int].1 < n);
            }
            let x = Self::node_out(from);
            let y = Self::node_in(to);
            proof {
                assert(self.edges@.take(k as int + 1).drop_last() =~= self.edges@.take(k as int));
                lemma_multiplicity_bounds(self.edges@.take(k as int), x as int, y as int);
                assert(node_capacity(nn, source as int, target as int, x as int, y as int) == 0);
            }
            let old_val = cap[x][y];
            proof {
                assert(x < size && y < size);
                assert(old_val as int == entry(cap@, x as int, y as int));
                assert(self.edges@.take(k as int + 1).last() == self.edges@[k as int]);
                lemma_multiplicity_prefix(self.edges@, k as int + 1, x as int, y as int);
                lemma_split_capacity_bounds(
                    nn,
                    self.edges@,
                    source as int,
                    target as int,
                    x as int,
                    y as int,
                );
                lemma_split_capacity_bounds(
                    nn,
                    self.edges@,
                    source as int,
                    target as int,
                    y as int,
                    x as int,
                );
                assert(old_val + 1 <= i32::MAX);
            }
            set_entry(&mut cap, x, y, old_val + 1);
            proof {
                assert forall|a: int, b: int|
                    0 <= a < size && 0 <= b < size implies #[trigger] entry(cap@, a, b)
                    == node_capacity(nn, source as int, target as int, a, b) + edge_multiplicity(
                    self.edges@.take(k as int + 1),
                    a,
                    b,
                ) by {
                    assert(self.edges@.take(k as int + 1).last() == self.edges@[k as int]);
                }
            }
            k += 1;
        }
        proof {
            assert(self.edges@.take(self.edges@.len() as int) =~= self.edges@);
        }
        cap
    }

    /// BFS to find an augmenting path in the residual graph.
    /// Returns the parent array if a path to `sink` was found, otherwise `None`.
    #[verifier::rlimit(60)]
    #[verifier::spinoff_prover]
    fn bfs(cap: &[Vec<i32>], source: usize, sink: usize) -> (res: Option<Vec<usize>>)
        requires
            is_square(cap@, cap@.len()),
            source < cap@.len(),
            sink < cap@.len(),
            source != sink,
        ensures
            match res {
                Some(parent) => {
                    &&& parent@[sink as int] != usize::MAX
                    &&& exists|level: Seq<int>| is_search_tree(cap@, source as int, parent@, level)
                },
                None => exists|mark: Seq<bool>|
                    {
                        &&& mark.len() == cap@.len()
                        &&& #[trigger] mark[source as int]
                        &&& !mark[sink as int]
                        &&& is_closed_set(cap@, mark)
                    },
            },
    {
        let size = cap.len();
        let sentinel = usize::MAX;
        let mut parent: Vec<usize> = Vec::new();
        let mut k: usize = 0;
        while k < size
            invariant
                k <= size,
                size == cap@.len(),
                sentinel == usize::MAX,
                parent@.len() == k,
                forall|j: int| 0 <= j < k ==> parent@[j] == usize::MAX,
            decreases size - k,
        {
            parent.push(sentinel);
            k += 1;
        }
        let ghost mut level: Seq<int> = Seq::new(size as nat, |j: int| 0int);
        parent.set(source, source);
        let mut queue: VecDeque<usize> = VecDeque::new();
        queue.push_back(source);
        proof {
            assert(queue@ =~= seq![source]);
            lemma_search_start(cap@, source as int, parent@, level, queue@);
        }
        loop
            invariant
                size == cap@.len(),
                is_square(cap@, size as nat),
                source < size,
                sink < size,
                source != sink,
                sentinel == usize::MAX,
                is_search_tree(cap@, source as int, parent@, level),
                parent@[sink as int] == usize::MAX,
                queue_ok(queue@, parent@, size as nat),
                closed_except(cap@, parent@, queue@, -1),
            decreases 2 * unvisited_count(parent@) + queue@.len(),
        {
            let ghost qbefore = queue@;
            let popped = queue.pop_front();
            match popped {
                None => {
                    proof {
                        lemma_search_exhausted(cap@, source as int, sink as int, parent@, queue@);
                    }
                    return None;
                },
                Some(u) => {
                    proof {
                        lemma_search_pop(cap@, parent@, qbefore, queue@);
                    }
                    let ghost measure0 = 2 * unvisited_count(parent@) + queue@.len();
                    let mut v: usize = 0;
                    while v < size
                        invariant
                            size == cap@.len(),
                            is_square(cap@, size as nat),
                            source < size,
                            sink < size,
                            source != sink,
                            sentinel == usize::MAX,
                            u < size,
                            parent@[u as int] != usize::MAX,
                            v <= size,
                            is_search_tree(cap@, source as int, parent@, level),
                            parent@[sink as int] == usize::MAX,
                            queue_ok(queue@, parent@, size as nat),
                            !queue@.contains(u),
                            closed_except(cap@, parent@, queue@, u as int),
                            forall|y: int|
                                0 <= y < v && entry(cap@, u as int, y) > 0 ==> #[trigger] parent@[y]
                                    != usize::MAX,
                            2 * unvisited_count(parent@) + queue@.len() <= measure0,
                        decreases size - v,
                    {
                        if parent[v] == sentinel && cap[u][v] > 0 {
                            let ghost old_parent = parent@;
                            let ghost old_level = level;
                            let ghost old_q = queue@;
                            parent.set(v, u);
                            proof {
                                level = level.update(v as int, level[u as int] + 1);
                                lemma_search_visit_tree(
                                    cap@,
                                    source as int,
                                    old_parent,
                                    old_level,
                                    u as int,
                                    v as int,
                                );
                                lemma_unvisited_update(old_parent, v as int, u);
                            }
                            if v == sink {
                                proof {
                                    assert(is_search_tree(cap@, source as int, parent@, level));
                                }
                                return Some(parent);
                            }
                            queue.push_back(v);
                            proof {
                                lemma_search_visit_queue(
                                    cap@,
                                    old_parent,
                                    old_q,
                                    u as int,
                                    v as int,
                                );
                            }
                        }
                        v += 1;
                    }
                    proof {
                        lemma_search_finish(cap@, parent@, queue@, u as int);
                    }
                }
            }
        }
    }

    /// Compute the maximum number of internally vertex-disjoint paths from
    /// `source` to `target` using Edmonds-Karp (BFS-based Ford-Fulkerson).
    ///
    /// Returns 0 if source == target, either index is out of bounds, or
    /// target is unreachable from source. For a real query, the edges must
    /// join the graph's nodes and the counts the computation works with must
    /// fit in `i32` (see `counts_fit_i32`). The result is at most the edges
    /// leaving the source and at most the edges entering the target.
    pub fn vertex_connectivity(&self, source: usize, target: usize) -> (flow: i32)
        requires
            source != target && source < self@.0 && target < self@.0 ==> edges_in_range(
                self@.0,
                self@.1,
            ) && counts_fit_i32(self@.0, self@.1, source as int, target as int),
        ensures
            flow >= 0,
            source == target || source >= self@.0 || target >= self@.0 ==> flow == 0,
            source != target && source < self@.0 && target < self@.0 ==> flow <= out_degree(
                self@.1,
                source as int,
            ) && flow <= in_degree(self@.1, target as int),
            source != target && source < self@.0 && target < self@.0 ==> is_max_flow_value(
                split_capacity(self@.0, self@.1, source as int, target as int),
                2 * self@.0,
                split_out(source as int),
                split_in(target as int),
                flow as int,
            ),
            source != target && source < self@.0 && target < self@.0 ==> is_max_disjoint_route_count(
                self@.1,
                source as int,
                target as int,
                flow as int,
            ),
    {
        if source == target || source >= self.n || target >= self.n {
            return 0;
        }
        let mut cap = self.build_cap(source, target);
        let s = Self::node_out(source);
        let t = Self::node_in(target);
        let mut flow = 0i32;
        let ghost size: nat = 2 * self.n as nat;
        let ghost c = split_capacity(self.n as nat, self.edges@, source as int, target as int);
        let ghost bound: int = i32::MAX as int;
        proof {
            assert forall|x: int, y: int|
                #![trigger c(x, y)]
                #![trigger as_fn(cap@)(x, y)]
                0 <= x < size && 0 <= y < size implies 0 <= c(x, y) && 0 <= as_fn(cap@)(x, y)
                && as_fn(cap@)(x, y) + as_fn(cap@)(y, x) == c(x, y) + c(y, x) && c(x, y) + c(y, x)
                <= bound by {
                lemma_split_capacity_bounds(
                    self.n as nat,
                    self.edges@,
                    source as int,
                    target as int,
                    x,
                    y,
                );
                assert(entry(cap@, x, y) == c(x, y));
                assert(entry(cap@, y, x) == c(y, x));
            }
            lemma_sum_ext(size, |v: int| as_fn(cap@)(s as int, v), |v: int| c(s as int, v));
            assert forall|u: int|
                0 <= u < size && u != s && u != t implies #[trigger] outflow(size, as_fn(cap@), u)
                == outflow(size, c, u) by {
                lemma_sum_ext(size, |v: int| as_fn(cap@)(u, v), |v: int| c(u, v));
            }
            lemma_source_row_bound(self.n as nat, self.edges@, source as int, target as int);
        }
        loop
            invariant
                is_square(cap@, size),
                size == 2 * self.n,
                s == split_out(source as int),
                t == split_in(target as int),
                s < size,
                t < size,
                source < self.n,
                target < self.n,
                source != target,
                c == split_capacity(self.n as nat, self.edges@, source as int, target as int),
                bound == i32::MAX,
                edges_in_range(self.n as nat, self.edges@),
                counts_fit_i32(self.n as nat, self.edges@, source as int, target as int),
                outflow(size, c, s as int) <= i32::MAX,
                forall|x: int, y: int|
                    #![trigger c(x, y)]
                    0 <= x < size && 0 <= y < size ==> c(x, y) + c(y, x) <= bound,
                is_residual_of(c, as_fn(cap@), size, s as int, t as int, flow as int),
            decreases outflow(size, as_fn(cap@), s as int),
        {
            let found = Self::bfs(cap.as_slice(), s, t);
            match found {
                None => {
                    proof {
                        let mark = choose|mark: Seq<bool>|
                            {
                                &&& mark.len() == cap@.len()
                                &&& #[trigger] mark[s as int]
                                &&& !mark[t as int]
                                &&& is_closed_set(cap@, mark)
                            };
                        let side = |x: int| 0 <= x < size && mark[x];
                        assert forall|u: int, v: int|
                            0 <= u < size && 0 <= v < size && side(u) && !side(v) implies #[trigger] as_fn(
                            cap@,
                        )(u, v) == 0 by {
                            assert(mark[u] && !mark[v]);
                            assert(0 <= as_fn(cap@)(u, v));
                        }
                        lemma_residual_certifies_max_flow(
                            c,
                            as_fn(cap@),
                            size,
                            s as int,
                            t as int,
                            flow as int,
                            side,
                        );
                        lemma_connectivity_counts_disjoint_routes(
                            self.n as nat,
                            self.edges@,
                            source as int,
                            target as int,
                            flow as int,
                        );
                        lemma_route_count_within_degrees(
                            self.edges@,
                            source as int,
                            target as int,
                            flow as int,
                        );
                    }
                    return flow;
                },
                Some(parent) => {
                    let ghost level = choose|level: Seq<int>|
                        is_search_tree(cap@, s as int, parent@, level);
                    // Find bottleneck along the path
                    let mut path_flow = i32::MAX;
                    let mut v = t;
                    let ghost mut path: Seq<usize> = seq![t];
                    while v != s
                        invariant
                            is_square(cap@, size),
                            is_search_tree(cap@, s as int, parent@, level),
                            s < size,
                            t < size,
                            v < size,
                            parent@[v as int] != usize::MAX,
                            path.len() >= 1,
                            path[0] == v,
                            path.last() == t,
                            forall|i: int| 0 <= i < path.len() ==> #[trigger] path[i] < size,
                            forall|i: int|
                                0 <= i < path.len() ==> #[trigger] level[path[i] as int] == level[v as int]
                                    + i,
                            forall|i: int| 1 <= i < path.len() ==> step_ok(cap@, parent@, path, path_flow, i),
                            1 <= path_flow,
                        decreases level[v as int],
                    {
                        let u = parent[v];
                        let ghost old_pf = path_flow;
                        if cap[u][v] < path_flow {
                            path_flow = cap[u][v];
                        }
                        proof {
                            let old_path = path;
                            path = seq![u] + path;
                            assert(path[1] == v);
                            assert forall|i: int| 1 <= i < path.len() implies step_ok(
                                cap@,
                                parent@,
                                path,
                                path_flow,
                                i,
                            ) by {
                                if i > 1 {
                                    assert(step_ok(cap@, parent@, old_path, old_pf, i - 1));
                                    assert(path[i] == old_path[i - 1]);
                                    assert(path[i - 1] == old_path[i - 2]);
                                }
                            }
                            assert forall|i: int|
                                0 <= i < path.len() implies #[trigger] level[path[i] as int]
                                == level[u as int] + i by {
                                if i > 0 {
                                    assert(path[i] == old_path[i - 1]);
                                }
                            }
                        }
                        v = u;
                    }
                    proof {
                        assert forall|i: int, j: int|
                            0 <= i < j < path.len() implies #[trigger] path[i] != #[trigger] path[j] by {
                            assert(level[path[i] as int] == i);
                            assert(level[path[j] as int] == j);
                        }
                        assert(path.len() >= 2);
                        assert(step_ok(cap@, parent@, path, path_flow, 1));
                        lemma_sum_term_le(size, |w: int| as_fn(cap@)(s as int, w), path[1] as int);
                    }
                    let ghost cap0 = cap@;
                    proof {
                        assert(path_flow <= outflow(size, as_fn(cap0), s as int));
                    }
                    let ghost m: int = path.len() - 1;
                    let ghost mut j: int = m;
                    // Update residual capacities
                    let mut v = t;
                    while v != s
                        invariant
                            is_square(cap@, size),
                            is_square(cap0, size),
                            parent@.len() == size,
                            s < size,
                            t < size,
                            bound <= i32::MAX,
                            1 <= path_flow,
                            path.len() >= 2,
                            m == path.len() - 1,
                            path[0] == s,
                            path[m] == t,
                            0 <= j <= m,
                            v == path[j],
                            forall|i: int| 0 <= i < path.len() ==> #[trigger] path[i] < size,
                            forall|i: int, k: int|
                                0 <= i < k < path.len() ==> #[trigger] path[i] != #[trigger] path[k],
                            forall|i: int| 1 <= i <= j ==> step_ok(cap@, parent@, path, path_flow, i),
                            forall|x: int, y: int|
                                #![trigger c(x, y)]
                                #![trigger as_fn(cap@)(x, y)]
                                0 <= x < size && 0 <= y < size ==> 0 <= c(x, y) && 0 <= as_fn(cap@)(
                                    x,
                                    y,
                                ) && as_fn(cap@)(x, y) + as_fn(cap@)(y, x) == c(x, y) + c(y, x)
                                    && c(x, y) + c(y, x) <= bound,
                            forall|w: int|
                                0 <= w < size ==> #[trigger] outflow(size, as_fn(cap@), w) == outflow(
                                    size,
                                    as_fn(cap0),
                                    w,
                                ) + (if w == t && j < m {
                                    path_flow as int
                                } else {
                                    0
                                }) - (if w == path[j] && j < m {
                                    path_flow as int
                                } else {
                                    0
                                }),
                        decreases j,
                    {
                        proof {
                            if j == 0 {
                                assert(v == s);
                            }
                            assert(step_ok(cap@, parent@, path, path_flow, j));
                            assert(path[j - 1] != path[j]);
                        }
                        let u = parent[v];
                        proof {
                            assert(u == path[j - 1]);
                            assert(as_fn(cap@)(u as int, v as int) + as_fn(cap@)(v as int, u as int)
                                == c(u as int, v as int) + c(v as int, u as int));
                            assert(0 <= as_fn(cap@)(u as int, v as int));
                        }
                        let ghost before = cap@;
                        let a = cap[u][v];
                        set_entry(&mut cap, u, v, a - path_flow);
                        let ghost mid = cap@;
                        let b = cap[v][u];
                        proof {
                            assert(entry(mid, v as int, u as int) == entry(before, v as int, u as int));
                            assert(c(u as int, v as int) + c(v as int, u as int) <= bound);
                        }
                        set_entry(&mut cap, v, u, b + path_flow);
                        proof {
                            let jj = j - 1;
                            assert forall|x: int, y: int|
                                #![trigger c(x, y)]
                                #![trigger as_fn(cap@)(x, y)]
                                0 <= x < size && 0 <= y < size implies 0 <= c(x, y) && 0 <= as_fn(cap@)(
                                x,
                                y,
                            ) && as_fn(cap@)(x, y) + as_fn(cap@)(y, x) == c(x, y) + c(y, x) && c(x, y)
                                + c(y, x) <= bound by {
                                assert(0 <= as_fn(before)(x, y));
                                assert(0 <= as_fn(before)(y, x));
                                assert(as_fn(before)(x, y) + as_fn(before)(y, x) == c(x, y) + c(y, x));
                                if x == u as int && y == v as int {
                                    assert(entry(cap@, x, y) == entry(mid, x, y));
                                } else if x == v as int && y == u as int {
                                    assert(entry(mid, y, x) == entry(cap@, y, x));
                                } else {
                                    assert(entry(cap@, x, y) == entry(mid, x, y));
                                    assert(entry(mid, x, y) == entry(before, x, y));
                                    assert(entry(cap@, y, x) == entry(mid, y, x));
                                    assert(entry(mid, y, x) == entry(before, y, x));
                                }
                            }
                            assert forall|i: int| 1 <= i <= jj implies step_ok(
                                cap@,
                                parent@,
                                path,
                                path_flow,
                                i,
                            ) by {
                                assert(step_ok(before, parent@, path, path_flow, i));
                                assert(path[i - 1] != path[jj]);
                                assert(path[i - 1] != path[j]);
                                assert(path[i] != path[j]);
                            }
                            assert forall|w: int| 0 <= w < size implies #[trigger] outflow(
                                size,
                                as_fn(cap@),
                                w,
                            ) == outflow(size, as_fn(cap0), w) + (if w == t && jj < m {
                                path_flow as int
                            } else {
                                0
                            }) - (if w == path[jj] && jj < m {
                                path_flow as int
                            } else {
                                0
                            }) by {
                                let old_row = |y: int| as_fn(before)(w, y);
                                let new_row = |y: int| as_fn(cap@)(w, y);
                                assert(outflow(size, as_fn(before), w) == outflow(
                                    size,
                                    as_fn(cap0),
                                    w,
                                ) + (if w == t && j < m {
                                    path_flow as int
                                } else {
                                    0
                                }) - (if w == path[j] && j < m {
                                    path_flow as int
                                } else {
                                    0
                                }));
                                if w == u as int {
                                    lemma_sum_update(size, old_row, new_row, v as int);
                                    assert(w != t);
                                } else if w == v as int {
                                    lemma_sum_update(size, old_row, new_row, u as int);
                                } else {
                                    lemma_sum_ext(size, old_row, new_row);
                                    assert(w != path[jj]);
                                }
                            }
                            j = jj;
                        }
                        v = u;
                    }
                    proof {
                        assert(j == 0);
                        assert(outflow(size, as_fn(cap@), s as int) == outflow(size, as_fn(cap0), s as int)
                            - path_flow);
                    }
                    flow += path_flow;
                }
            }
        }
    }
}

} // verus!
