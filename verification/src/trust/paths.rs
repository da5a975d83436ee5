//! Vertex-disjoint routes and the flow they carry (Menger's theorem).
//!
//! A route from `s` to `t` is a sequence of positions in the edge list whose
//! edges chain from `s` to `t`. A family of routes that shares no edge and no
//! intermediate node carries one unit of flow each through the vertex-split
//! network, so the network's maximum flow (the vertex connectivity) is at
//! least the number of routes in any such family. Conversely a maximum flow
//! splits, one positive walk at a time, into that many such routes. So the
//! vertex connectivity is exactly the largest number of disjoint routes.
use vstd::prelude::*;

use crate::trust::flow_theory::{
    cut_net, flow_value, inflow, is_feasible_flow, is_max_flow_value, lemma_sum_ext, lemma_sum_sub,
    lemma_value_is_cut_net,
    lemma_sum_le, lemma_sum_nonneg, lemma_sum_single, lemma_sum_swap, lemma_sum_update,
    lemma_sum_zero, outflow, sum,
};
use crate::trust::max_flow::{
    edge_multiplicity, edges_in_range, in_degree, node_capacity, out_degree, split_capacity,
    split_in, split_out,
};

verus! {

/// `route` takes edges of `edges` (by position) that chain from `s` to `t`.
pub open spec fn is_route(edges: Seq<(usize, usize)>, s: int, t: int, route: Seq<int>) -> bool {
    &&& route.len() >= 1
    &&& forall|i: int| 0 <= i < route.len() ==> 0 <= #[trigger] route[i] < edges.len()
    &&& edges[route[0]].0 == s
    &&& edges[route.last()].1 == t
    &&& forall|i: int|
        0 <= i < route.len() - 1 ==> #[trigger] edges[route[i]].1 == edges[route[i + 1]].0
}

/// The `i`-th intermediate node of a route: where its `i`-th edge ends.
pub open spec fn inner_node(edges: Seq<(usize, usize)>, route: Seq<int>, i: int) -> int {
    edges[route[i]].1 as int
}

/// Routes from `s` to `t` that share no edge and no intermediate node (not
/// even within one route), and pass through neither `s` nor `t` on the way.
pub open spec fn are_disjoint_routes(edges: Seq<(usize, usize)>, s: int, t: int, routes: Seq<Seq<int>>) -> bool {
    &&& forall|p: int| 0 <= p < routes.len() ==> is_route(edges, s, t, #[trigger] routes[p])
    &&& forall|p: int, i: int|
        0 <= p < routes.len() && 0 <= i < routes[p].len() - 1 ==> #[trigger] inner_node(
            edges,
            routes[p],
            i,
        ) != s && inner_node(edges, routes[p], i) != t
    &&& forall|p: int, i: int, q: int, j: int|
        0 <= p < routes.len() && 0 <= i < routes[p].len() - 1 && 0 <= q < routes.len() && 0 <= j
            < routes[q].len() - 1 && #[trigger] inner_node(edges, routes[p], i) == #[trigger] inner_node(
            edges,
            routes[q],
            j,
        ) ==> p == q && i == j
    &&& forall|p: int, i: int, q: int, j: int|
        0 <= p < routes.len() && 0 <= i < routes[p].len() && 0 <= q < routes.len() && 0 <= j
            < routes[q].len() && #[trigger] routes[p][i] == #[trigger] routes[q][j] ==> p == q && i
            == j
}

/// Edge `e` is taken by one of the routes.
pub open spec fn is_used(routes: Seq<Seq<int>>, e: int) -> bool {
    exists|p: int, i: int| 0 <= p < routes.len() && 0 <= i < routes[p].len() && #[trigger] routes[p][i] == e
}

/// Node `v` is an intermediate node of one of the routes.
pub open spec fn is_inner(edges: Seq<(usize, usize)>, routes: Seq<Seq<int>>, v: int) -> bool {
    exists|p: int, i: int|
        0 <= p < routes.len() && 0 <= i < routes[p].len() - 1 && #[trigger] inner_node(
            edges,
            routes[p],
            i,
        ) == v
}

/// One when edge `e` is taken by the routes and becomes `x → y`.
pub open spec fn cross_hit(edges: Seq<(usize, usize)>, routes: Seq<Seq<int>>, x: int, y: int, e: int) -> int {
    if is_used(routes, e) && split_out(edges[e].0 as int) == x && split_in(edges[e].1 as int) == y {
        1
    } else {
        0
    }
}

/// One unit for each edge taken by the routes that becomes `x → y`.
pub open spec fn route_cross(edges: Seq<(usize, usize)>, routes: Seq<Seq<int>>, x: int, y: int) -> int {
    sum(edges.len(), |e: int| cross_hit(edges, routes, x, y, e))
}

/// One unit through `v_in → v_out` for each intermediate node `v`.
pub open spec fn route_inner(edges: Seq<(usize, usize)>, routes: Seq<Seq<int>>, x: int, y: int) -> int {
    if x % 2 == 0 && y == x + 1 && is_inner(edges, routes, x / 2) {
        1
    } else {
        0
    }
}

/// The flow the routes carry through the vertex-split network.
pub open spec fn route_flow(edges: Seq<(usize, usize)>, routes: Seq<Seq<int>>) -> spec_fn(int, int) -> int {
    |x: int, y: int| route_cross(edges, routes, x, y) + route_inner(edges, routes, x, y)
}

/// One when edge `e` is taken by the routes and ends at `v`.
pub open spec fn head_hit(edges: Seq<(usize, usize)>, routes: Seq<Seq<int>>, v: int, e: int) -> int {
    if is_used(routes, e) && edges[e].1 == v {
        1
    } else {
        0
    }
}

/// One when edge `e` is taken by the routes and starts at `u`.
pub open spec fn tail_hit(edges: Seq<(usize, usize)>, routes: Seq<Seq<int>>, u: int, e: int) -> int {
    if is_used(routes, e) && edges[e].0 == u {
        1
    } else {
        0
    }
}

/// Used edges that end at `v`.
pub open spec fn heads_at(edges: Seq<(usize, usize)>, routes: Seq<Seq<int>>, v: int) -> int {
    sum(edges.len(), |e: int| head_hit(edges, routes, v, e))
}

/// Used edges that start at `u`.
pub open spec fn tails_at(edges: Seq<(usize, usize)>, routes: Seq<Seq<int>>, u: int) -> int {
    sum(edges.len(), |e: int| tail_hit(edges, routes, u, e))
}

/// One when some `q < k` picks position `e`.
pub open spec fn picked(pick: spec_fn(int) -> int, k: nat, e: int) -> int {
    if exists|q: int| 0 <= q < k && #[trigger] pick(q) == e {
        1
    } else {
        0
    }
}

/// The multiplicity of `x → y` counted position by position.
proof fn lemma_multiplicity_as_sum(edges: Seq<(usize, usize)>, x: int, y: int)
    ensures
        edge_multiplicity(edges, x, y) == sum(
            edges.len(),
            |e: int|
                if split_out(edges[e].0 as int) == x && split_in(edges[e].1 as int) == y {
                    1int
                } else {
                    0int
                },
        ),
    decreases edges.len(),
{
    if edges.len() > 0 {
        let d = edges.drop_last();
        lemma_multiplicity_as_sum(d, x, y);
        let g = |e: int|
            if split_out(edges[e].0 as int) == x && split_in(edges[e].1 as int) == y {
                1int
            } else {
                0int
            };
        let gd = |e: int|
            if split_out(d[e].0 as int) == x && split_in(d[e].1 as int) == y {
                1int
            } else {
                0int
            };
        lemma_sum_ext(d.len(), g, gd);
    }
}

/// A sum over the `2n` split nodes is the sum over their entry halves plus
/// the sum over their exit halves.
proof fn lemma_sum_split(n: nat, g: spec_fn(int) -> int)
    ensures
        sum(2 * n, g) == sum(n, |w: int| g(2 * w)) + sum(n, |w: int| g(2 * w + 1)),
    decreases n,
{
    if n > 0 {
        lemma_sum_split((n - 1) as nat, g);
        let n1 = (n - 1) as nat;
        assert(sum(2 * n, g) == sum((2 * n - 1) as nat, g) + g(2 * n - 1));
        assert(sum((2 * n - 1) as nat, g) == sum((2 * n - 2) as nat, g) + g(2 * n - 2));
        assert((2 * n - 2) as nat == 2 * n1);
    }
}

/// Number of distinct positions picked by an injective choice.
proof fn lemma_count_distinct(m: nat, k: nat, pick: spec_fn(int) -> int)
    requires
        forall|q: int| 0 <= q < k ==> 0 <= #[trigger] pick(q) < m,
        forall|a: int, b: int| 0 <= a < k && 0 <= b < k && #[trigger] pick(a) == #[trigger] pick(b) ==> a == b,
    ensures
        sum(m, |e: int| picked(pick, k, e)) == k,
    decreases k,
{
    let g = |e: int| picked(pick, k, e);
    if k == 0 {
        lemma_sum_zero(m, g);
    } else {
        let k1 = (k - 1) as nat;
        lemma_count_distinct(m, k1, pick);
        let f = |e: int| picked(pick, k1, e);
        let last = pick(k1 as int);
        assert forall|e: int| 0 <= e < m && e != last implies #[trigger] f(e) == g(e) by {
            if exists|q: int| 0 <= q < k && #[trigger] pick(q) == e {
                let q = choose|q: int| 0 <= q < k && #[trigger] pick(q) == e;
                assert(q != k1);
            }
        }
        assert(g(last) == 1);
        assert(f(last) == 0) by {
            if exists|q: int| 0 <= q < k1 && #[trigger] pick(q) == last {
                let q = choose|q: int| 0 <= q < k1 && #[trigger] pick(q) == last;
                assert(pick(q) == pick(k1 as int));
            }
        }
        lemma_sum_update(m, f, g, last);
    }
}

/// Used edges ending at a node other than `t`: one when it is an
/// intermediate node, none otherwise.
proof fn lemma_heads(edges: Seq<(usize, usize)>, s: int, t: int, routes: Seq<Seq<int>>, v: int)
    requires
        are_disjoint_routes(edges, s, t, routes),
        v != t,
    ensures
        heads_at(edges, routes, v) == if is_inner(edges, routes, v) { 1int } else { 0int },
{
    let g = |e: int| head_hit(edges, routes, v, e);
    if is_inner(edges, routes, v) {
        let (p, i) = choose|p: int, i: int|
            0 <= p < routes.len() && 0 <= i < routes[p].len() - 1 && #[trigger] inner_node(
                edges,
                routes[p],
                i,
            ) == v;
        let e0 = routes[p][i];
        assert(is_route(edges, s, t, routes[p]));
        assert(0 <= e0 < edges.len());
        assert forall|e: int| 0 <= e < edges.len() && e != e0 implies #[trigger] g(e) == 0 by {
            if is_used(routes, e) && edges[e].1 == v {
                let (q, j) = choose|q: int, j: int|
                    0 <= q < routes.len() && 0 <= j < routes[q].len() && #[trigger] routes[q][j] == e;
                assert(is_route(edges, s, t, routes[q]));
                if j < routes[q].len() - 1 {
                    assert(inner_node(edges, routes[q], j) == inner_node(edges, routes[p], i));
                } else {
                    assert(edges[routes[q].last()].1 == t);
                }
            }
        }
        assert(is_used(routes, e0));
        lemma_sum_single(edges.len(), g, e0);
        assert(g(e0) == 1);
        assert(sum(edges.len(), g) == 1);
        assert(heads_at(edges, routes, v) == sum(edges.len(), g));
    } else {
        assert forall|e: int| 0 <= e < edges.len() implies #[trigger] g(e) == 0 by {
            if is_used(routes, e) && edges[e].1 == v {
                let (q, j) = choose|q: int, j: int|
                    0 <= q < routes.len() && 0 <= j < routes[q].len() && #[trigger] routes[q][j] == e;
                assert(is_route(edges, s, t, routes[q]));
                if j < routes[q].len() - 1 {
                    assert(inner_node(edges, routes[q], j) == v);
                } else {
                    assert(edges[routes[q].last()].1 == t);
                }
            }
        }
        lemma_sum_zero(edges.len(), g);
    }
}

/// Used edges starting at a node other than `s`: one when it is an
/// intermediate node, none otherwise.
proof fn lemma_tails(edges: Seq<(usize, usize)>, s: int, t: int, routes: Seq<Seq<int>>, u: int)
    requires
        are_disjoint_routes(edges, s, t, routes),
        u != s,
    ensures
        tails_at(edges, routes, u) == if is_inner(edges, routes, u) { 1int } else { 0int },
{
    let g = |e: int| tail_hit(edges, routes, u, e);
    if is_inner(edges, routes, u) {
        let (p, i) = choose|p: int, i: int|
            0 <= p < routes.len() && 0 <= i < routes[p].len() - 1 && #[trigger] inner_node(
                edges,
                routes[p],
                i,
            ) == u;
        assert(is_route(edges, s, t, routes[p]));
        let e1 = routes[p][i + 1];
        assert(edges[routes[p][i]].1 == edges[routes[p][i + 1]].0);
        assert forall|e: int| 0 <= e < edges.len() && e != e1 implies #[trigger] g(e) == 0 by {
            if is_used(routes, e) && edges[e].0 == u {
                let (q, j) = choose|q: int, j: int|
                    0 <= q < routes.len() && 0 <= j < routes[q].len() && #[trigger] routes[q][j] == e;
                assert(is_route(edges, s, t, routes[q]));
                if j > 0 {
                    assert(edges[routes[q][j - 1]].1 == edges[routes[q][(j - 1) + 1]].0);
                    assert(inner_node(edges, routes[q], j - 1) == inner_node(edges, routes[p], i));
                }
            }
        }
        assert(is_used(routes, e1));
        lemma_sum_single(edges.len(), g, e1);
    } else {
        assert forall|e: int| 0 <= e < edges.len() implies #[trigger] g(e) == 0 by {
            if is_used(routes, e) && edges[e].0 == u {
                let (q, j) = choose|q: int, j: int|
                    0 <= q < routes.len() && 0 <= j < routes[q].len() && #[trigger] routes[q][j] == e;
                assert(is_route(edges, s, t, routes[q]));
                if j > 0 {
                    assert(edges[routes[q][j - 1]].1 == edges[routes[q][(j - 1) + 1]].0);
                    assert(inner_node(edges, routes[q], j - 1) == u);
                }
            }
        }
        lemma_sum_zero(edges.len(), g);
    }
}

/// Each route leaves `s` by its own first edge, and nothing else leaves `s`.
proof fn lemma_tails_at_source(edges: Seq<(usize, usize)>, s: int, t: int, routes: Seq<Seq<int>>)
    requires
        are_disjoint_routes(edges, s, t, routes),
    ensures
        tails_at(edges, routes, s) == routes.len(),
{
    let pick = |q: int| routes[q][0];
    let g = |e: int| tail_hit(edges, routes, s, e);
    let h = |e: int| picked(pick, routes.len(), e);
    assert forall|q: int| 0 <= q < routes.len() implies 0 <= #[trigger] pick(q) < edges.len() by {
        assert(is_route(edges, s, t, routes[q]));
    }
    assert forall|a: int, b: int|
        0 <= a < routes.len() && 0 <= b < routes.len() && #[trigger] pick(a) == #[trigger] pick(b) implies a
        == b by {
        assert(is_route(edges, s, t, routes[a]));
        assert(is_route(edges, s, t, routes[b]));
        assert(routes[a][0] == routes[b][0]);
    }
    lemma_count_distinct(edges.len(), routes.len(), pick);
    assert forall|e: int| 0 <= e < edges.len() implies #[trigger] g(e) == h(e) by {
        if is_used(routes, e) && edges[e].0 == s {
            let (q, j) = choose|q: int, j: int|
                0 <= q < routes.len() && 0 <= j < routes[q].len() && #[trigger] routes[q][j] == e;
            assert(is_route(edges, s, t, routes[q]));
            if j > 0 {
                assert(edges[routes[q][j - 1]].1 == edges[routes[q][(j - 1) + 1]].0);
                assert(inner_node(edges, routes[q], j - 1) == s);
            }
            assert(pick(q) == e);
        }
        if exists|q: int| 0 <= q < routes.len() && #[trigger] pick(q) == e {
            let q = choose|q: int| 0 <= q < routes.len() && #[trigger] pick(q) == e;
            assert(is_route(edges, s, t, routes[q]));
            assert(routes[q][0] == e);
            assert(is_used(routes, e));
        }
    }
    lemma_sum_ext(edges.len(), g, h);
}


/// For one edge, summing its indicator over all entry ends `y` leaves
/// whether it is used and leaves from `x`.
proof fn lemma_cross_over_heads(n: nat, edges: Seq<(usize, usize)>, routes: Seq<Seq<int>>, x: int, e: int)
    requires
        edges_in_range(n, edges),
        0 <= e < edges.len(),
    ensures
        sum(2 * n, |y: int| cross_hit(edges, routes, x, y, e)) == if is_used(routes, e) && split_out(
            edges[e].0 as int,
        ) == x {
            1int
        } else {
            0int
        },
{
    let g = |y: int| cross_hit(edges, routes, x, y, e);
    assert(edges[e].1 < n);
    if is_used(routes, e) && split_out(edges[e].0 as int) == x {
        let y0 = split_in(edges[e].1 as int);
        assert forall|y: int| 0 <= y < 2 * n && y != y0 implies #[trigger] g(y) == 0 by {}
        lemma_sum_single(2 * n, g, y0);
    } else {
        assert forall|y: int| 0 <= y < 2 * n implies #[trigger] g(y) == 0 by {}
        lemma_sum_zero(2 * n, g);
    }
}

/// For one edge, summing its indicator over all exit ends `x` leaves
/// whether it is used and enters `y`.
proof fn lemma_cross_over_tails(n: nat, edges: Seq<(usize, usize)>, routes: Seq<Seq<int>>, y: int, e: int)
    requires
        edges_in_range(n, edges),
        0 <= e < edges.len(),
    ensures
        sum(2 * n, |x: int| cross_hit(edges, routes, x, y, e)) == if is_used(routes, e) && split_in(
            edges[e].1 as int,
        ) == y {
            1int
        } else {
            0int
        },
{
    let g = |x: int| cross_hit(edges, routes, x, y, e);
    assert(edges[e].0 < n);
    if is_used(routes, e) && split_in(edges[e].1 as int) == y {
        let x0 = split_out(edges[e].0 as int);
        assert forall|x: int| 0 <= x < 2 * n && x != x0 implies #[trigger] g(x) == 0 by {}
        lemma_sum_single(2 * n, g, x0);
    } else {
        assert forall|x: int| 0 <= x < 2 * n implies #[trigger] g(x) == 0 by {}
        lemma_sum_zero(2 * n, g);
    }
}

/// What leaves the exit half of `u` is one unit per used edge starting at `u`.
proof fn lemma_outflow_of_exit(n: nat, edges: Seq<(usize, usize)>, routes: Seq<Seq<int>>, u: int)
    requires
        edges_in_range(n, edges),
    ensures
        outflow(2 * n, route_flow(edges, routes), split_out(u)) == tails_at(edges, routes, u),
{
    let x = split_out(u);
    let m = edges.len();
    let fl = route_flow(edges, routes);
    let ff = |y: int, e: int| cross_hit(edges, routes, x, y, e);
    let rows = |y: int| sum(m, |e: int| ff(y, e));
    assert forall|y: int| #![trigger fl(x, y)] #![trigger rows(y)] 0 <= y < 2 * n implies fl(x, y) == rows(y) by {
        lemma_sum_ext(m, |e: int| cross_hit(edges, routes, x, y, e), |e: int| ff(y, e));
    }
    lemma_sum_ext(2 * n, |y: int| fl(x, y), rows);
    lemma_sum_swap(2 * n, m, ff);
    let cols = |e: int| sum(2 * n, |y: int| ff(y, e));
    assert forall|e: int| #![trigger cols(e)] 0 <= e < m implies cols(e) == tail_hit(edges, routes, u, e) by {
        lemma_sum_ext(2 * n, |y: int| ff(y, e), |y: int| cross_hit(edges, routes, x, y, e));
        lemma_cross_over_heads(n, edges, routes, x, e);
    }
    lemma_sum_ext(m, cols, |e: int| tail_hit(edges, routes, u, e));
}

/// What enters the entry half of `v` is one unit per used edge ending at `v`.
proof fn lemma_inflow_of_entry(n: nat, edges: Seq<(usize, usize)>, routes: Seq<Seq<int>>, v: int)
    requires
        edges_in_range(n, edges),
    ensures
        inflow(2 * n, route_flow(edges, routes), split_in(v)) == heads_at(edges, routes, v),
{
    let y = split_in(v);
    let m = edges.len();
    let fl = route_flow(edges, routes);
    let ff = |x: int, e: int| cross_hit(edges, routes, x, y, e);
    let rows = |x: int| sum(m, |e: int| ff(x, e));
    assert forall|x: int| #![trigger fl(x, y)] #![trigger rows(x)] 0 <= x < 2 * n implies fl(x, y) == rows(x) by {
        lemma_sum_ext(m, |e: int| cross_hit(edges, routes, x, y, e), |e: int| ff(x, e));
    }
    lemma_sum_ext(2 * n, |x: int| fl(x, y), rows);
    lemma_sum_swap(2 * n, m, ff);
    let cols = |e: int| sum(2 * n, |x: int| ff(x, e));
    assert forall|e: int| #![trigger cols(e)] 0 <= e < m implies cols(e) == head_hit(edges, routes, v, e) by {
        lemma_sum_ext(2 * n, |x: int| ff(x, e), |x: int| cross_hit(edges, routes, x, y, e));
        lemma_cross_over_tails(n, edges, routes, y, e);
    }
    lemma_sum_ext(m, cols, |e: int| head_hit(edges, routes, v, e));
}

/// Nothing crosses into an exit half or out of an entry half except the
/// unit through an intermediate node.
proof fn lemma_internal_edges(n: nat, edges: Seq<(usize, usize)>, routes: Seq<Seq<int>>, w: int)
    requires
        edges_in_range(n, edges),
        0 <= w < n,
    ensures
        outflow(2 * n, route_flow(edges, routes), split_in(w)) == if is_inner(edges, routes, w) {
            1int
        } else {
            0int
        },
        inflow(2 * n, route_flow(edges, routes), split_out(w)) == if is_inner(edges, routes, w) {
            1int
        } else {
            0int
        },
{
    let m = edges.len();
    let fl = route_flow(edges, routes);
    let a = split_in(w);
    let b = split_out(w);
    assert forall|y: int| 0 <= y < 2 * n implies #[trigger] route_cross(edges, routes, a, y) == 0 by {
        assert forall|e: int| 0 <= e < m implies #[trigger] cross_hit(edges, routes, a, y, e) == 0 by {}
        lemma_sum_zero(m, |e: int| cross_hit(edges, routes, a, y, e));
    }
    assert forall|y: int| 0 <= y < 2 * n && y != b implies #[trigger] fl(a, y) == 0 by {
        assert(route_cross(edges, routes, a, y) == 0);
    }
    assert(route_cross(edges, routes, a, b) == 0);
    lemma_sum_single(2 * n, |y: int| fl(a, y), b);
    assert forall|x: int| 0 <= x < 2 * n implies #[trigger] route_cross(edges, routes, x, b) == 0 by {
        assert forall|e: int| 0 <= e < m implies #[trigger] cross_hit(edges, routes, x, b, e) == 0 by {}
        lemma_sum_zero(m, |e: int| cross_hit(edges, routes, x, b, e));
    }
    assert forall|x: int| 0 <= x < 2 * n && x != a implies #[trigger] fl(x, b) == 0 by {
        assert(route_cross(edges, routes, x, b) == 0);
    }
    lemma_sum_single(2 * n, |x: int| fl(x, b), a);
}

/// The flow the routes carry fits the capacities of the split network.
proof fn lemma_route_flow_fits(
    n: nat,
    edges: Seq<(usize, usize)>,
    routes: Seq<Seq<int>>,
    source: int,
    target: int,
    x: int,
    y: int,
)
    requires
        edges_in_range(n, edges),
        0 <= x < 2 * n,
        0 <= y < 2 * n,
    ensures
        0 <= route_flow(edges, routes)(x, y) <= split_capacity(n, edges, source, target)(x, y),
{
    let m = edges.len();
    lemma_sum_nonneg(m, |e: int| cross_hit(edges, routes, x, y, e));
    lemma_multiplicity_as_sum(edges, x, y);
    lemma_sum_le(
        m,
        |e: int| cross_hit(edges, routes, x, y, e),
        |e: int|
            if split_out(edges[e].0 as int) == x && split_in(edges[e].1 as int) == y {
                1int
            } else {
                0int
            },
    );
    if route_inner(edges, routes, x, y) == 1 {
        assert(node_capacity(n, source, target, x, y) >= 1);
    }
}

/// Any family of routes from `source` to `target` that share no edge and no
/// intermediate node has at most as many routes as the vertex connectivity:
/// the routes together carry a feasible flow of one unit each through the
/// vertex-split network, and no feasible flow exceeds its maximum.
pub proof fn lemma_disjoint_routes_within_connectivity(
    n: nat,
    edges: Seq<(usize, usize)>,
    source: int,
    target: int,
    routes: Seq<Seq<int>>,
    connectivity: int,
)
    requires
        edges_in_range(n, edges),
        0 <= source < n,
        0 <= target < n,
        source != target,
        are_disjoint_routes(edges, source, target, routes),
        is_max_flow_value(
            split_capacity(n, edges, source, target),
            2 * n,
            split_out(source),
            split_in(target),
            connectivity,
        ),
    ensures
        routes.len() <= connectivity,
{
    let size = 2 * n;
    let c = split_capacity(n, edges, source, target);
    let fl = route_flow(edges, routes);
    let s = split_out(source);
    let t = split_in(target);
    assert forall|x: int, y: int| 0 <= x < size && 0 <= y < size implies 0 <= #[trigger] fl(x, y) <= c(x, y) by {
        lemma_route_flow_fits(n, edges, routes, source, target, x, y);
    }
    assert forall|x: int| 0 <= x < size && x != s && x != t implies #[trigger] inflow(size, fl, x) == outflow(
        size,
        fl,
        x,
    ) by {
        let w = x / 2;
        if x % 2 == 0 {
            assert(x == split_in(w));
            lemma_inflow_of_entry(n, edges, routes, w);
            lemma_internal_edges(n, edges, routes, w);
            lemma_heads(edges, source, target, routes, w);
        } else {
            assert(x == split_out(w));
            lemma_outflow_of_exit(n, edges, routes, w);
            lemma_internal_edges(n, edges, routes, w);
            lemma_tails(edges, source, target, routes, w);
        }
    }
    assert(is_feasible_flow(c, size, s, t, fl));
    lemma_outflow_of_exit(n, edges, routes, source);
    lemma_internal_edges(n, edges, routes, source);
    lemma_tails_at_source(edges, source, target, routes);
    assert(!is_inner(edges, routes, source)) by {
        if is_inner(edges, routes, source) {
            let (p, i) = choose|p: int, i: int|
                0 <= p < routes.len() && 0 <= i < routes[p].len() - 1 && #[trigger] inner_node(
                    edges,
                    routes[p],
                    i,
                ) == source;
        }
    }
    assert(flow_value(size, fl, s) == routes.len());
}


/// `w` is a walk through the network along pairs on which `f` is positive.
pub open spec fn is_positive_walk(f: spec_fn(int, int) -> int, size: nat, w: Seq<int>) -> bool {
    &&& w.len() >= 1
    &&& forall|i: int| 0 <= i < w.len() ==> 0 <= #[trigger] w[i] < size
    &&& forall|i: int| 0 <= i < w.len() - 1 ==> #[trigger] f(w[i], w[i + 1]) > 0
}

/// No vertex occurs twice in `w`.
pub open spec fn no_repeats(w: Seq<int>) -> bool {
    forall|i: int, j: int| 0 <= i < j < w.len() ==> w[i] != w[j]
}

/// Some positive walk leads from `a` to `b`.
pub open spec fn reaches(f: spec_fn(int, int) -> int, size: nat, a: int, b: int) -> bool {
    exists|w: Seq<int>| #[trigger] is_positive_walk(f, size, w) && w[0] == a && w.last() == b
}

/// A positive walk can be shortened to one that repeats no vertex.
proof fn lemma_shortcut(f: spec_fn(int, int) -> int, size: nat, w: Seq<int>) -> (r: Seq<int>)
    requires
        is_positive_walk(f, size, w),
    ensures
        is_positive_walk(f, size, r),
        no_repeats(r),
        r[0] == w[0],
        r.last() == w.last(),
    decreases w.len(),
{
    if no_repeats(w) {
        w
    } else {
        let (i, j) = choose|i: int, j: int| 0 <= i < j < w.len() && w[i] == w[j];
        let w2 = w.take(i) + w.skip(j);
        assert(w2.len() == w.len() - (j - i));
        assert forall|k: int| 0 <= k < w2.len() implies 0 <= #[trigger] w2[k] < size by {
            if k < i {
                assert(w2[k] == w[k]);
            } else {
                assert(w2[k] == w[k - i + j]);
            }
        }
        assert forall|k: int| 0 <= k < w2.len() - 1 implies #[trigger] f(w2[k], w2[k + 1]) > 0 by {
            if k + 1 < i {
                assert(w2[k] == w[k] && w2[k + 1] == w[k + 1]);
            } else if k + 1 == i {
                assert(w2[k] == w[k] && w2[k + 1] == w[j]);
                assert(f(w[k], w[k + 1]) > 0);
            } else {
                assert(w2[k] == w[k - i + j] && w2[k + 1] == w[k + 1 - i + j]);
                assert(f(w[k - i + j], w[k - i + j + 1]) > 0);
            }
        }
        if i == 0 {
            assert(w2[0] == w[j]);
        } else {
            assert(w2[0] == w[0]);
        }
        assert(w2.last() == w.last());
        lemma_shortcut(f, size, w2)
    }
}

/// A feasible flow of positive value reaches the sink along positive pairs:
/// otherwise the vertices it reaches would form a cut that nothing leaves.
proof fn lemma_positive_flow_reaches_sink(
    c: spec_fn(int, int) -> int,
    size: nat,
    s: int,
    t: int,
    f: spec_fn(int, int) -> int,
)
    requires
        0 <= s < size,
        0 <= t < size,
        s != t,
        is_feasible_flow(c, size, s, t, f),
        flow_value(size, f, s) > 0,
    ensures
        reaches(f, size, s, t),
{
    let side = |x: int| reaches(f, size, s, x);
    let start = seq![s];
    assert(is_positive_walk(f, size, start) && start[0] == s && start.last() == s);
    if !side(t) {
        lemma_value_is_cut_net(size, s, t, f, side);
        let zero = |u: int| 0int;
        let outer = |u: int|
            if side(u) {
                sum(size, |v: int| if !side(v) { f(u, v) - f(v, u) } else { 0 })
            } else {
                0
            };
        assert forall|u: int| #![trigger outer(u)] 0 <= u < size implies outer(u) <= zero(u) by {
            if side(u) {
                let w = choose|w: Seq<int>| #[trigger] is_positive_walk(f, size, w) && w[0] == s && w.last() == u;
                let row = |v: int| if !side(v) { f(u, v) - f(v, u) } else { 0 };
                assert forall|v: int| #![trigger row(v)] 0 <= v < size implies row(v) <= zero(v) by {
                    if !side(v) && f(u, v) > 0 {
                        let w2 = w.push(v);
                        assert forall|k: int| 0 <= k < w2.len() - 1 implies #[trigger] f(w2[k], w2[k + 1]) > 0 by {
                            if k < w.len() - 1 {
                                assert(w2[k] == w[k] && w2[k + 1] == w[k + 1]);
                            }
                        }
                        assert(is_positive_walk(f, size, w2) && w2[0] == s && w2.last() == v);
                    }
                }
                lemma_sum_le(size, row, zero);
                lemma_sum_zero(size, zero);
            }
        }
        lemma_sum_le(size, outer, zero);
        lemma_sum_zero(size, zero);
        assert(cut_net(size, f, side) <= 0);
    }
}


/// An edge list has an edge for `x → y` whenever the multiplicity is positive.
proof fn lemma_multiplicity_has_edge(edges: Seq<(usize, usize)>, x: int, y: int)
    requires
        edge_multiplicity(edges, x, y) > 0,
    ensures
        exists|e: int|
            0 <= e < edges.len() && split_out(edges[e].0 as int) == x && #[trigger] split_in(
                edges[e].1 as int,
            ) == y,
{
    lemma_multiplicity_as_sum(edges, x, y);
    let g = |e: int|
        if split_out(edges[e].0 as int) == x && split_in(edges[e].1 as int) == y {
            1int
        } else {
            0int
        };
    if !exists|e: int|
        0 <= e < edges.len() && split_out(edges[e].0 as int) == x && #[trigger] split_in(
            edges[e].1 as int,
        ) == y {
        assert forall|e: int| 0 <= e < edges.len() implies #[trigger] g(e) == 0 by {
            if split_out(edges[e].0 as int) == x && split_in(edges[e].1 as int) == y {
                assert(split_in(edges[e].1 as int) == y);
            }
        }
        lemma_sum_zero(edges.len(), g);
    }
}

/// Positions already taken whose edge becomes `x → y`.
pub open spec fn used_hit(edges: Seq<(usize, usize)>, used: Set<int>, x: int, y: int, e: int) -> int {
    if used.contains(e) && split_out(edges[e].0 as int) == x && split_in(edges[e].1 as int) == y {
        1
    } else {
        0
    }
}

/// How many taken positions become `x → y`.
pub open spec fn used_count(edges: Seq<(usize, usize)>, used: Set<int>, x: int, y: int) -> int {
    sum(edges.len(), |e: int| used_hit(edges, used, x, y, e))
}

/// While fewer positions for `x → y` are taken than the edge list holds, a
/// free one remains.
proof fn lemma_free_position(edges: Seq<(usize, usize)>, used: Set<int>, x: int, y: int)
    requires
        used_count(edges, used, x, y) < edge_multiplicity(edges, x, y),
    ensures
        exists|e: int|
            0 <= e < edges.len() && !used.contains(e) && split_out(edges[e].0 as int) == x
                && #[trigger] split_in(edges[e].1 as int) == y,
{
    lemma_multiplicity_as_sum(edges, x, y);
    let g = |e: int|
        if split_out(edges[e].0 as int) == x && split_in(edges[e].1 as int) == y {
            1int
        } else {
            0int
        };
    if !exists|e: int|
        0 <= e < edges.len() && !used.contains(e) && split_out(edges[e].0 as int) == x
            && #[trigger] split_in(edges[e].1 as int) == y {
        assert forall|e: int| #![trigger g(e)] 0 <= e < edges.len() implies g(e) == used_hit(
            edges,
            used,
            x,
            y,
            e,
        ) by {
            if split_out(edges[e].0 as int) == x && split_in(edges[e].1 as int) == y {
                assert(split_in(edges[e].1 as int) == y);
            }
        }
        lemma_sum_ext(edges.len(), g, |e: int| used_hit(edges, used, x, y, e));
    }
}

/// In a positive walk of a feasible flow that starts at an exit half, exit
/// and entry halves alternate, and each entry half is followed by its own
/// exit half.
proof fn lemma_walk_alternates(
    n: nat,
    edges: Seq<(usize, usize)>,
    source: int,
    target: int,
    f: spec_fn(int, int) -> int,
    w: Seq<int>,
)
    requires
        edges_in_range(n, edges),
        is_feasible_flow(
            split_capacity(n, edges, source, target),
            2 * n,
            split_out(source),
            split_in(target),
            f,
        ),
        is_positive_walk(f, 2 * n, w),
        w[0] % 2 == 1,
    ensures
        forall|i: int| 0 <= i < w.len() ==> (#[trigger] w[i] % 2 == 1) == (i % 2 == 0),
        forall|i: int|
            0 <= i < w.len() - 1 && i % 2 == 1 ==> #[trigger] w[i + 1] == w[i] + 1,
        forall|i: int|
            0 <= i < w.len() - 1 && i % 2 == 0 ==> #[trigger] edge_multiplicity(edges, w[i], w[i + 1])
                >= f(w[i], w[i + 1]),
    decreases w.len(),
{
    let c = split_capacity(n, edges, source, target);
    if w.len() > 1 {
        let v = w.drop_last();
        assert forall|i: int| 0 <= i < v.len() implies 0 <= #[trigger] v[i] < 2 * n by {
            assert(v[i] == w[i]);
        }
        assert forall|i: int| 0 <= i < v.len() - 1 implies #[trigger] f(v[i], v[i + 1]) > 0 by {
            assert(v[i] == w[i] && v[i + 1] == w[i + 1]);
        }
        lemma_walk_alternates(n, edges, source, target, f, v);
        let k = w.len() - 2;
        let x = w[k];
        let y = w[k + 1];
        assert(v[k] == x);
        assert(f(x, y) > 0);
        assert(0 <= x < 2 * n && 0 <= y < 2 * n);
        assert(f(x, y) <= c(x, y));
        if x % 2 == 1 {
            assert(node_capacity(n, source, target, x, y) == 0);
            lemma_multiplicity_has_edge(edges, x, y);
            let e = choose|e: int|
                0 <= e < edges.len() && split_out(edges[e].0 as int) == x && #[trigger] split_in(
                    edges[e].1 as int,
                ) == y;
            assert(y % 2 == 0);
        } else {
            if edge_multiplicity(edges, x, y) > 0 {
                lemma_multiplicity_has_edge(edges, x, y);
                let e = choose|e: int|
                    0 <= e < edges.len() && split_out(edges[e].0 as int) == x && #[trigger] split_in(
                        edges[e].1 as int,
                    ) == y;
                assert(x % 2 == 1);
            }
            assert(node_capacity(n, source, target, x, y) > 0);
            assert(y == x + 1);
        }
        assert forall|i: int| 0 <= i < w.len() implies (#[trigger] w[i] % 2 == 1) == (i % 2 == 0) by {
            if i < w.len() - 1 {
                assert(w[i] == v[i]);
            }
        }
        assert forall|i: int| 0 <= i < w.len() - 1 && i % 2 == 1 implies #[trigger] w[i + 1] == w[i] + 1 by {
            if i < k {
                assert(w[i] == v[i] && w[i + 1] == v[i + 1]);
            }
        }
        assert forall|i: int|
            0 <= i < w.len() - 1 && i % 2 == 0 implies #[trigger] edge_multiplicity(
            edges,
            w[i],
            w[i + 1],
        ) >= f(w[i], w[i + 1]) by {
            if i < k {
                assert(w[i] == v[i] && w[i + 1] == v[i + 1]);
            } else {
                assert(node_capacity(n, source, target, x, y) == 0);
            }
        }
    }
}


/// One when `x → y` is a step of the walk `w`.
pub open spec fn walk_step(w: Seq<int>, x: int, y: int) -> int {
    if exists|i: int| 0 <= i < w.len() - 1 && #[trigger] w[i] == x && w[i + 1] == y {
        1
    } else {
        0
    }
}

/// The flow left once one unit is taken back along the walk `w`.
pub open spec fn minus_walk(f: spec_fn(int, int) -> int, w: Seq<int>) -> spec_fn(int, int) -> int {
    |x: int, y: int| f(x, y) - walk_step(w, x, y)
}

/// Steps of a walk that repeats no vertex: one leaves each vertex but the
/// last, one enters each vertex but the first.
proof fn lemma_walk_step_sums(size: nat, w: Seq<int>, x: int)
    requires
        w.len() >= 1,
        no_repeats(w),
        forall|i: int| 0 <= i < w.len() ==> 0 <= #[trigger] w[i] < size,
    ensures
        sum(size, |y: int| walk_step(w, x, y)) == if exists|i: int| 0 <= i < w.len() - 1 && #[trigger] w[i] == x {
            1int
        } else {
            0int
        },
        sum(size, |y: int| walk_step(w, y, x)) == if exists|i: int| 1 <= i < w.len() && #[trigger] w[i] == x {
            1int
        } else {
            0int
        },
{
    let out_g = |y: int| walk_step(w, x, y);
    let in_g = |y: int| walk_step(w, y, x);
    if exists|i: int| 0 <= i < w.len() - 1 && #[trigger] w[i] == x {
        let i = choose|i: int| 0 <= i < w.len() - 1 && #[trigger] w[i] == x;
        let y0 = w[i + 1];
        assert forall|y: int| 0 <= y < size && y != y0 implies #[trigger] out_g(y) == 0 by {
            if exists|j: int| 0 <= j < w.len() - 1 && #[trigger] w[j] == x && w[j + 1] == y {
                let j = choose|j: int| 0 <= j < w.len() - 1 && #[trigger] w[j] == x && w[j + 1] == y;
                if i < j {
                    assert(w[i] != w[j]);
                } else if j < i {
                    assert(w[j] != w[i]);
                }
            }
        }
        assert(w[i] == x && w[i + 1] == y0);
        assert(out_g(y0) == 1);
        lemma_sum_single(size, out_g, y0);
    } else {
        assert forall|y: int| 0 <= y < size implies #[trigger] out_g(y) == 0 by {
            if exists|j: int| 0 <= j < w.len() - 1 && #[trigger] w[j] == x && w[j + 1] == y {
                let j = choose|j: int| 0 <= j < w.len() - 1 && #[trigger] w[j] == x && w[j + 1] == y;
                assert(w[j] == x);
            }
        }
        lemma_sum_zero(size, out_g);
    }
    if exists|i: int| 1 <= i < w.len() && #[trigger] w[i] == x {
        let i = choose|i: int| 1 <= i < w.len() && #[trigger] w[i] == x;
        let y0 = w[i - 1];
        assert forall|y: int| 0 <= y < size && y != y0 implies #[trigger] in_g(y) == 0 by {
            if exists|j: int| 0 <= j < w.len() - 1 && #[trigger] w[j] == y && w[j + 1] == x {
                let j = choose|j: int| 0 <= j < w.len() - 1 && #[trigger] w[j] == y && w[j + 1] == x;
                if i < j + 1 {
                    assert(w[i] != w[j + 1]);
                } else if j + 1 < i {
                    assert(w[j + 1] != w[i]);
                }
            }
        }
        assert(w[i - 1] == y0 && w[(i - 1) + 1] == x);
        assert(in_g(y0) == 1);
        lemma_sum_single(size, in_g, y0);
    } else {
        assert forall|y: int| 0 <= y < size implies #[trigger] in_g(y) == 0 by {
            if exists|j: int| 0 <= j < w.len() - 1 && #[trigger] w[j] == y && w[j + 1] == x {
                let j = choose|j: int| 0 <= j < w.len() - 1 && #[trigger] w[j] == y && w[j + 1] == x;
                assert(w[j + 1] == x);
            }
        }
        lemma_sum_zero(size, in_g);
    }
}

/// Taking one unit back along a positive walk from `s` to `t` that repeats
/// no vertex leaves a feasible flow whose value is one less.
proof fn lemma_minus_walk(c: spec_fn(int, int) -> int, size: nat, s: int, t: int, f: spec_fn(int, int) -> int, w: Seq<int>)
    requires
        0 <= s < size,
        0 <= t < size,
        s != t,
        is_feasible_flow(c, size, s, t, f),
        is_positive_walk(f, size, w),
        no_repeats(w),
        w[0] == s,
        w.last() == t,
    ensures
        is_feasible_flow(c, size, s, t, minus_walk(f, w)),
        flow_value(size, minus_walk(f, w), s) == flow_value(size, f, s) - 1,
        forall|x: int, y: int| #[trigger] minus_walk(f, w)(x, y) <= f(x, y),
{
    let g = minus_walk(f, w);
    assert forall|x: int, y: int| 0 <= x < size && 0 <= y < size implies 0 <= #[trigger] g(x, y) <= c(x, y) by {
        assert(f(x, y) <= c(x, y));
        if walk_step(w, x, y) == 1 {
            let i = choose|i: int| 0 <= i < w.len() - 1 && #[trigger] w[i] == x && w[i + 1] == y;
            assert(f(w[i], w[i + 1]) > 0);
        }
    }
    assert forall|x: int| 0 <= x < size implies outflow(size, g, x) == outflow(size, f, x) - sum(
        size,
        |y: int| walk_step(w, x, y),
    ) && inflow(size, g, x) == inflow(size, f, x) - sum(size, |y: int| walk_step(w, y, x)) by {
        lemma_sum_sub(size, |y: int| f(x, y), |y: int| walk_step(w, x, y), |y: int| g(x, y));
        lemma_sum_sub(size, |y: int| f(y, x), |y: int| walk_step(w, y, x), |y: int| g(y, x));
    }
    assert forall|x: int| 0 <= x < size && x != s && x != t implies #[trigger] inflow(size, g, x) == outflow(
        size,
        g,
        x,
    ) by {
        lemma_walk_step_sums(size, w, x);
        assert(inflow(size, f, x) == outflow(size, f, x));
        if exists|i: int| 0 <= i < w.len() - 1 && #[trigger] w[i] == x {
            let i = choose|i: int| 0 <= i < w.len() - 1 && #[trigger] w[i] == x;
            assert(i != 0);
            assert(1 <= i < w.len() && w[i] == x);
        }
        if exists|i: int| 1 <= i < w.len() && #[trigger] w[i] == x {
            let i = choose|i: int| 1 <= i < w.len() && #[trigger] w[i] == x;
            assert(i != w.len() - 1);
            assert(0 <= i < w.len() - 1 && w[i] == x);
        }
    }
    lemma_walk_step_sums(size, w, s);
    assert(w.len() >= 2);
    assert(0 <= 0 < w.len() - 1 && w[0] == s);
    if exists|i: int| 1 <= i < w.len() && #[trigger] w[i] == s {
        let i = choose|i: int| 1 <= i < w.len() && #[trigger] w[i] == s;
        assert(w[0] != w[i]);
    }
}


/// The position chosen for the `j`-th hop of a walk through the split
/// network: a free position whose edge becomes that hop.
pub open spec fn hop_position(edges: Seq<(usize, usize)>, used: Set<int>, w: Seq<int>, j: int) -> int {
    choose|e: int|
        0 <= e < edges.len() && !used.contains(e) && split_out(edges[e].0 as int) == w[2 * j]
            && #[trigger] split_in(edges[e].1 as int) == w[2 * j + 1]
}

/// The route a walk through the split network takes: one free position per hop.
pub open spec fn walk_route(edges: Seq<(usize, usize)>, used: Set<int>, w: Seq<int>) -> Seq<int> {
    Seq::new((w.len() / 2) as nat, |j: int| hop_position(edges, used, w, j))
}

/// Free positions cover the flow on every hop (pairs leaving an exit half).
pub open spec fn positions_cover(n: nat, edges: Seq<(usize, usize)>, f: spec_fn(int, int) -> int, used: Set<int>) -> bool {
    forall|x: int, y: int|
        0 <= x < 2 * n && 0 <= y < 2 * n && x % 2 == 1 ==> #[trigger] f(x, y) + used_count(
            edges,
            used,
            x,
            y,
        ) <= edge_multiplicity(edges, x, y)
}

/// `w` is a positive walk from the source's exit half to the target's entry
/// half that repeats no vertex, alternating hops and passages through nodes.
pub open spec fn is_split_walk(
    n: nat,
    edges: Seq<(usize, usize)>,
    source: int,
    target: int,
    f: spec_fn(int, int) -> int,
    w: Seq<int>,
) -> bool {
    &&& is_positive_walk(f, 2 * n, w)
    &&& no_repeats(w)
    &&& w[0] == split_out(source)
    &&& w.last() == split_in(target)
    &&& w.len() >= 2
    &&& w.len() % 2 == 0
    &&& forall|i: int| 0 <= i < w.len() ==> (#[trigger] w[i] % 2 == 1) == (i % 2 == 0)
    &&& forall|i: int| 0 <= i < w.len() - 1 && i % 2 == 1 ==> #[trigger] w[i + 1] == w[i] + 1
}

/// What the routes built from a flow promise about that flow and the taken positions.
pub open spec fn routes_fit(
    edges: Seq<(usize, usize)>,
    f: spec_fn(int, int) -> int,
    used: Set<int>,
    routes: Seq<Seq<int>>,
) -> bool {
    &&& forall|p: int, i: int|
        0 <= p < routes.len() && 0 <= i < routes[p].len() ==> !used.contains(#[trigger] routes[p][i])
    &&& forall|p: int, i: int|
        0 <= p < routes.len() && 0 <= i < routes[p].len() - 1 ==> f(
            split_in(#[trigger] inner_node(edges, routes[p], i)),
            split_out(inner_node(edges, routes[p], i)),
        ) >= 1
}

proof fn lemma_find_walk(
    n: nat,
    edges: Seq<(usize, usize)>,
    source: int,
    target: int,
    f: spec_fn(int, int) -> int,
) -> (w: Seq<int>)
    requires
        edges_in_range(n, edges),
        0 <= source < n,
        0 <= target < n,
        source != target,
        is_feasible_flow(
            split_capacity(n, edges, source, target),
            2 * n,
            split_out(source),
            split_in(target),
            f,
        ),
        flow_value(2 * n, f, split_out(source)) > 0,
    ensures
        is_split_walk(n, edges, source, target, f, w),
{
    let size = 2 * n;
    let c = split_capacity(n, edges, source, target);
    let s = split_out(source);
    let t = split_in(target);
    lemma_positive_flow_reaches_sink(c, size, s, t, f);
    let w0 = choose|w: Seq<int>| #[trigger] is_positive_walk(f, size, w) && w[0] == s && w.last() == t;
    let w = lemma_shortcut(f, size, w0);
    lemma_walk_alternates(n, edges, source, target, f, w);
    assert(w.len() >= 2) by {
        if w.len() == 1 {
            assert(w[0] == w.last());
        }
    }
    assert(w.len() % 2 == 0) by {
        assert(w[w.len() - 1] % 2 == 0);
    }
    w
}

/// Each position of `route` is free and its edge becomes the matching hop of `w`.
pub open spec fn hops_match(edges: Seq<(usize, usize)>, used: Set<int>, w: Seq<int>, route: Seq<int>) -> bool {
    forall|j: int|
        0 <= j < route.len() ==> {
            let e = #[trigger] route[j];
            &&& 0 <= e < edges.len()
            &&& !used.contains(e)
            &&& split_out(edges[e].0 as int) == w[2 * j]
            &&& split_in(edges[e].1 as int) == w[2 * j + 1]
        }
}

proof fn lemma_hops_match(
    n: nat,
    edges: Seq<(usize, usize)>,
    source: int,
    target: int,
    f: spec_fn(int, int) -> int,
    used: Set<int>,
    w: Seq<int>,
)
    requires
        edges_in_range(n, edges),
        0 <= source < n,
        0 <= target < n,
        is_feasible_flow(
            split_capacity(n, edges, source, target),
            2 * n,
            split_out(source),
            split_in(target),
            f,
        ),
        positions_cover(n, edges, f, used),
        is_split_walk(n, edges, source, target, f, w),
    ensures
        walk_route(edges, used, w).len() == w.len() / 2,
        hops_match(edges, used, w, walk_route(edges, used, w)),
{
    let size = 2 * n;
    let c = split_capacity(n, edges, source, target);
    let route = walk_route(edges, used, w);
    assert forall|j: int| 0 <= j < route.len() implies {
        let e = #[trigger] route[j];
        &&& 0 <= e < edges.len()
        &&& !used.contains(e)
        &&& split_out(edges[e].0 as int) == w[2 * j]
        &&& split_in(edges[e].1 as int) == w[2 * j + 1]
    } by {
        let x = w[2 * j];
        let y = w[2 * j + 1];
        assert(f(w[2 * j], w[2 * j + 1]) > 0);
        assert(x % 2 == 1);
        assert(0 <= x < size && 0 <= y < size);
        assert(f(x, y) <= c(x, y));
        assert(node_capacity(n, source, target, x, y) == 0);
        assert(f(x, y) + used_count(edges, used, x, y) <= edge_multiplicity(edges, x, y));
        lemma_free_position(edges, used, x, y);
        assert(route[j] == hop_position(edges, used, w, j));
    }
}

/// The route a split walk takes: its positions are free and distinct, it is
/// a route, and its intermediate nodes are the walk's passages, each carrying
/// one unit of `f` and none once the walk is taken back.
#[verifier::rlimit(40)]
proof fn lemma_route_of_walk(
    n: nat,
    edges: Seq<(usize, usize)>,
    source: int,
    target: int,
    f: spec_fn(int, int) -> int,
    used: Set<int>,
    w: Seq<int>,
)
    requires
        edges_in_range(n, edges),
        0 <= source < n,
        0 <= target < n,
        source != target,
        is_feasible_flow(
            split_capacity(n, edges, source, target),
            2 * n,
            split_out(source),
            split_in(target),
            f,
        ),
        positions_cover(n, edges, f, used),
        is_split_walk(n, edges, source, target, f, w),
    ensures
        ({
            let route = walk_route(edges, used, w);
            &&& route.len() == w.len() / 2
            &&& hops_match(edges, used, w, route)
            &&& forall|i: int, j: int|
                0 <= i < route.len() && 0 <= j < route.len() && #[trigger] route[i] == #[trigger] route[j]
                    ==> i == j
            &&& is_route(edges, source, target, route)
            &&& forall|i: int|
                0 <= i < route.len() - 1 ==> {
                    let v = #[trigger] inner_node(edges, route, i);
                    &&& split_in(v) == w[2 * i + 1]
                    &&& v != source
                    &&& v != target
                    &&& f(split_in(v), split_out(v)) >= 1
                    &&& minus_walk(f, w)(split_in(v), split_out(v)) == 0
                }
        }),
{
    lemma_hops_match(n, edges, source, target, f, used, w);
    lemma_route_distinct(edges, used, w, walk_route(edges, used, w));
    lemma_route_chains(n, edges, source, target, f, used, w);
    lemma_route_inner(n, edges, source, target, f, used, w);
}

proof fn lemma_route_distinct(edges: Seq<(usize, usize)>, used: Set<int>, w: Seq<int>, route: Seq<int>)
    requires
        no_repeats(w),
        2 * route.len() <= w.len(),
        hops_match(edges, used, w, route),
    ensures
        forall|i: int, j: int|
            0 <= i < route.len() && 0 <= j < route.len() && #[trigger] route[i] == #[trigger] route[j]
                ==> i == j,
{
    assert forall|i: int, j: int|
        0 <= i < route.len() && 0 <= j < route.len() && #[trigger] route[i] == #[trigger] route[j] implies i
        == j by {
        assert(w[2 * i] == w[2 * j]);
        if i < j {
            assert(w[2 * i] != w[2 * j]);
        } else if j < i {
            assert(w[2 * j] != w[2 * i]);
        }
    }
}

proof fn lemma_route_chains(
    n: nat,
    edges: Seq<(usize, usize)>,
    source: int,
    target: int,
    f: spec_fn(int, int) -> int,
    used: Set<int>,
    w: Seq<int>,
)
    requires
        is_split_walk(n, edges, source, target, f, w),
        walk_route(edges, used, w).len() == w.len() / 2,
        hops_match(edges, used, w, walk_route(edges, used, w)),
    ensures
        is_route(edges, source, target, walk_route(edges, used, w)),
{
    let route = walk_route(edges, used, w);
    let len = w.len();
    let r = len / 2;
    assert(route.last() == route[r - 1]);
    assert(w[2 * (r - 1) + 1] == w.last());
    assert forall|i: int| 0 <= i < route.len() - 1 implies #[trigger] edges[route[i]].1 == edges[route[i + 1]].0 by {
        let o = 2 * i + 1;
        assert(o % 2 == 1 && 0 <= o < len - 1);
        assert(w[o + 1] == w[o] + 1);
        assert(w[2 * (i + 1)] == w[o + 1]);
    }
}

proof fn lemma_route_inner(
    n: nat,
    edges: Seq<(usize, usize)>,
    source: int,
    target: int,
    f: spec_fn(int, int) -> int,
    used: Set<int>,
    w: Seq<int>,
)
    requires
        edges_in_range(n, edges),
        0 <= source < n,
        0 <= target < n,
        source != target,
        is_feasible_flow(
            split_capacity(n, edges, source, target),
            2 * n,
            split_out(source),
            split_in(target),
            f,
        ),
        is_split_walk(n, edges, source, target, f, w),
        walk_route(edges, used, w).len() == w.len() / 2,
        hops_match(edges, used, w, walk_route(edges, used, w)),
    ensures
        forall|i: int|
            0 <= i < walk_route(edges, used, w).len() - 1 ==> {
                let v = #[trigger] inner_node(edges, walk_route(edges, used, w), i);
                &&& split_in(v) == w[2 * i + 1]
                &&& v != source
                &&& v != target
                &&& f(split_in(v), split_out(v)) >= 1
                &&& minus_walk(f, w)(split_in(v), split_out(v)) == 0
            },
{
    let size = 2 * n;
    let c = split_capacity(n, edges, source, target);
    let route = walk_route(edges, used, w);
    let len = w.len();
    let r = len / 2;
    assert forall|i: int| 0 <= i < r - 1 implies {
        let v = #[trigger] inner_node(edges, route, i);
        &&& split_in(v) == w[2 * i + 1]
        &&& v != source
        &&& v != target
        &&& f(split_in(v), split_out(v)) >= 1
        &&& minus_walk(f, w)(split_in(v), split_out(v)) == 0
    } by {
        let v = inner_node(edges, route, i);
        let o = 2 * i + 1;
        assert(split_in(v) == w[o]);
        assert(o % 2 == 1 && 0 <= o < len - 1);
        assert(w[o + 1] == w[o] + 1);
        assert(split_out(v) == w[o + 1]);
        assert(w[0] != w[o + 1]);
        assert(w[o] != w[len - 1]);
        assert(f(w[o], w[o + 1]) > 0);
        let x = split_in(v);
        let y = split_out(v);
        assert(0 <= x < size);
        assert(f(x, y) <= c(x, y));
        if edge_multiplicity(edges, x, y) > 0 {
            lemma_multiplicity_has_edge(edges, x, y);
            let e = choose|e: int|
                0 <= e < edges.len() && split_out(edges[e].0 as int) == x && #[trigger] split_in(
                    edges[e].1 as int,
                ) == y;
        }
        assert(node_capacity(n, source, target, x, y) == 1);
        assert(0 <= o < len - 1 && w[o] == x && w[o + 1] == y);
        assert(walk_step(w, x, y) == 1);
    }
}

/// Taking a split walk back and its route's positions out leaves the
/// positions covering the remaining flow.
proof fn lemma_cover_after_walk(
    n: nat,
    edges: Seq<(usize, usize)>,
    source: int,
    target: int,
    f: spec_fn(int, int) -> int,
    used: Set<int>,
    w: Seq<int>,
)
    requires
        edges_in_range(n, edges),
        0 <= source < n,
        0 <= target < n,
        source != target,
        is_feasible_flow(
            split_capacity(n, edges, source, target),
            2 * n,
            split_out(source),
            split_in(target),
            f,
        ),
        positions_cover(n, edges, f, used),
        is_split_walk(n, edges, source, target, f, w),
    ensures
        positions_cover(
            n,
            edges,
            minus_walk(f, w),
            used.union(walk_route(edges, used, w).to_set()),
        ),
{
    let size = 2 * n;
    let len = w.len();
    let r = len / 2;
    let route = walk_route(edges, used, w);
    let used2 = used.union(route.to_set());
    let f2 = minus_walk(f, w);
    lemma_route_of_walk(n, edges, source, target, f, used, w);
    assert forall|x: int, y: int|
        0 <= x < size && 0 <= y < size && x % 2 == 1 implies #[trigger] f2(x, y) + used_count(
        edges,
        used2,
        x,
        y,
    ) <= edge_multiplicity(edges, x, y) by {
        let old_hit = |e: int| used_hit(edges, used, x, y, e);
        let new_hit = |e: int| used_hit(edges, used2, x, y, e);
        assert(f(x, y) + used_count(edges, used, x, y) <= edge_multiplicity(edges, x, y));
        if exists|j: int| 0 <= j < r && #[trigger] w[2 * j] == x && w[2 * j + 1] == y {
            let j = choose|j: int| 0 <= j < r && #[trigger] w[2 * j] == x && w[2 * j + 1] == y;
            assert(0 <= 2 * j < len - 1 && w[2 * j] == x && w[2 * j + 1] == y);
            assert(walk_step(w, x, y) == 1);
            let e0 = route[j];
            assert forall|e: int| 0 <= e < edges.len() && e != e0 implies #[trigger] old_hit(e) == new_hit(e) by {
                if route.to_set().contains(e) {
                    let l = choose|l: int| 0 <= l < route.len() && route[l] == e;
                    assert(route[l] == e);
                    assert(!used.contains(e));
                    if l != j {
                        if l < j {
                            assert(w[2 * l] != w[2 * j]);
                        } else {
                            assert(w[2 * j] != w[2 * l]);
                        }
                    }
                }
            }
            assert(route.to_set().contains(e0)) by {
                assert(route[j] == e0);
            }
            assert(new_hit(e0) == 1 && old_hit(e0) == 0);
            lemma_sum_update(edges.len(), old_hit, new_hit, e0);
        } else {
            if walk_step(w, x, y) == 1 {
                let i = choose|i: int| 0 <= i < len - 1 && #[trigger] w[i] == x && w[i + 1] == y;
                assert(i % 2 == 0);
                let j = i / 2;
                assert(w[2 * j] == x && w[2 * j + 1] == y);
            }
            assert forall|e: int| 0 <= e < edges.len() implies #[trigger] old_hit(e) == new_hit(e) by {
                if route.to_set().contains(e) {
                    let l = choose|l: int| 0 <= l < route.len() && route[l] == e;
                    assert(route[l] == e);
                    assert(!used.contains(e));
                    if split_out(edges[e].0 as int) == x && split_in(edges[e].1 as int) == y {
                        assert(w[2 * l] == x && w[2 * l + 1] == y);
                    }
                }
            }
            lemma_sum_ext(edges.len(), old_hit, new_hit);
        }
    }
}

/// Adding a split walk's route to the routes built from what is left keeps
/// the family disjoint and fitting the flow.
proof fn lemma_join_route(
    n: nat,
    edges: Seq<(usize, usize)>,
    source: int,
    target: int,
    f: spec_fn(int, int) -> int,
    used: Set<int>,
    w: Seq<int>,
    rest: Seq<Seq<int>>,
)
    requires
        edges_in_range(n, edges),
        0 <= source < n,
        0 <= target < n,
        source != target,
        is_feasible_flow(
            split_capacity(n, edges, source, target),
            2 * n,
            split_out(source),
            split_in(target),
            f,
        ),
        positions_cover(n, edges, f, used),
        is_split_walk(n, edges, source, target, f, w),
        are_disjoint_routes(edges, source, target, rest),
        routes_fit(edges, minus_walk(f, w), used.union(walk_route(edges, used, w).to_set()), rest),
        forall|x: int, y: int| #[trigger] minus_walk(f, w)(x, y) <= f(x, y),
    ensures
        are_disjoint_routes(edges, source, target, rest.push(walk_route(edges, used, w))),
        routes_fit(edges, f, used, rest.push(walk_route(edges, used, w))),
{
    let route = walk_route(edges, used, w);
    let used2 = used.union(route.to_set());
    let f2 = minus_walk(f, w);
    let routes = rest.push(route);
    lemma_route_of_walk(n, edges, source, target, f, used, w);
    assert forall|p: int| 0 <= p < routes.len() implies is_route(edges, source, target, #[trigger] routes[p]) by {
        if p < rest.len() {
            assert(routes[p] == rest[p]);
        }
    }
    assert forall|p: int, i: int|
        0 <= p < routes.len() && 0 <= i < routes[p].len() - 1 implies #[trigger] inner_node(
        edges,
        routes[p],
        i,
    ) != source && inner_node(edges, routes[p], i) != target by {
        if p < rest.len() {
            assert(routes[p] == rest[p]);
            assert(inner_node(edges, rest[p], i) == inner_node(edges, routes[p], i));
        }
    }
    assert forall|p: int, i: int, q: int, j: int|
        0 <= p < routes.len() && 0 <= i < routes[p].len() - 1 && 0 <= q < routes.len() && 0 <= j
            < routes[q].len() - 1 && #[trigger] inner_node(edges, routes[p], i) == #[trigger] inner_node(
            edges,
            routes[q],
            j,
        ) implies p == q && i == j by {
        if p < rest.len() && q < rest.len() {
            assert(routes[p] == rest[p] && routes[q] == rest[q]);
            assert(inner_node(edges, rest[p], i) == inner_node(edges, rest[q], j));
        } else if p < rest.len() {
            assert(routes[p] == rest[p] && routes[q] == route);
            let u = inner_node(edges, rest[p], i);
            assert(f2(split_in(u), split_out(u)) >= 1);
            assert(inner_node(edges, route, j) == u);
        } else if q < rest.len() {
            assert(routes[q] == rest[q] && routes[p] == route);
            let u = inner_node(edges, rest[q], j);
            assert(f2(split_in(u), split_out(u)) >= 1);
            assert(inner_node(edges, route, i) == u);
        } else {
            assert(routes[p] == route && routes[q] == route);
            assert(inner_node(edges, route, i) == inner_node(edges, route, j));
            assert(w[2 * i + 1] == w[2 * j + 1]);
            if i < j {
                assert(w[2 * i + 1] != w[2 * j + 1]);
            } else if j < i {
                assert(w[2 * j + 1] != w[2 * i + 1]);
            }
        }
    }
    assert forall|p: int, i: int, q: int, j: int|
        0 <= p < routes.len() && 0 <= i < routes[p].len() && 0 <= q < routes.len() && 0 <= j
            < routes[q].len() && #[trigger] routes[p][i] == #[trigger] routes[q][j] implies p == q && i
        == j by {
        if p < rest.len() && q < rest.len() {
            assert(routes[p] == rest[p] && routes[q] == rest[q]);
            assert(rest[p][i] == rest[q][j]);
        } else if p < rest.len() {
            assert(routes[p] == rest[p] && routes[q] == route);
            assert(used2.contains(route[j])) by {
                assert(route.to_set().contains(route[j]));
            }
            assert(!used2.contains(rest[p][i]));
        } else if q < rest.len() {
            assert(routes[q] == rest[q] && routes[p] == route);
            assert(used2.contains(route[i])) by {
                assert(route.to_set().contains(route[i]));
            }
            assert(!used2.contains(rest[q][j]));
        } else {
            assert(routes[p] == route && routes[q] == route);
        }
    }
    assert forall|p: int, i: int|
        0 <= p < routes.len() && 0 <= i < routes[p].len() implies !used.contains(
        #[trigger] routes[p][i],
    ) by {
        if p < rest.len() {
            assert(routes[p] == rest[p]);
            assert(!used2.contains(rest[p][i]));
        } else {
            assert(routes[p] == route);
        }
    }
    assert forall|p: int, i: int|
        0 <= p < routes.len() && 0 <= i < routes[p].len() - 1 implies f(
        split_in(#[trigger] inner_node(edges, routes[p], i)),
        split_out(inner_node(edges, routes[p], i)),
    ) >= 1 by {
        if p < rest.len() {
            assert(routes[p] == rest[p]);
            let u = inner_node(edges, rest[p], i);
            assert(f2(split_in(u), split_out(u)) >= 1);
            assert(f2(split_in(u), split_out(u)) <= f(split_in(u), split_out(u)));
        } else {
            assert(routes[p] == route);
        }
    }
}

/// A feasible flow of value `k` splits into `k` routes that share no edge
/// and no intermediate node, none of them on a position in `used`, provided
/// the free positions cover the flow on every hop.
proof fn lemma_decompose(
    n: nat,
    edges: Seq<(usize, usize)>,
    source: int,
    target: int,
    f: spec_fn(int, int) -> int,
    k: nat,
    used: Set<int>,
) -> (routes: Seq<Seq<int>>)
    requires
        edges_in_range(n, edges),
        0 <= source < n,
        0 <= target < n,
        source != target,
        is_feasible_flow(
            split_capacity(n, edges, source, target),
            2 * n,
            split_out(source),
            split_in(target),
            f,
        ),
        flow_value(2 * n, f, split_out(source)) == k,
        positions_cover(n, edges, f, used),
    ensures
        routes.len() == k,
        are_disjoint_routes(edges, source, target, routes),
        routes_fit(edges, f, used, routes),
    decreases k,
{
    if k == 0 {
        return Seq::empty();
    }
    let c = split_capacity(n, edges, source, target);
    let w = lemma_find_walk(n, edges, source, target, f);
    lemma_minus_walk(c, 2 * n, split_out(source), split_in(target), f, w);
    lemma_cover_after_walk(n, edges, source, target, f, used, w);
    let route = walk_route(edges, used, w);
    let used2 = used.union(route.to_set());
    let rest = lemma_decompose(n, edges, source, target, minus_walk(f, w), (k - 1) as nat, used2);
    lemma_join_route(n, edges, source, target, f, used, w, rest);
    rest.push(route)
}


/// `k` is the largest number of routes from `source` to `target` that share
/// no edge and no intermediate node.
pub open spec fn is_max_disjoint_route_count(
    edges: Seq<(usize, usize)>,
    source: int,
    target: int,
    k: int,
) -> bool {
    &&& exists|routes: Seq<Seq<int>>|
        #[trigger] are_disjoint_routes(edges, source, target, routes) && routes.len() == k
    &&& forall|routes: Seq<Seq<int>>|
        #[trigger] are_disjoint_routes(edges, source, target, routes) ==> routes.len() <= k
}

/// The vertex connectivity is attained: a maximum flow of the split network
/// splits into that many routes that share no edge and no intermediate node.
pub proof fn lemma_connectivity_is_attained(
    n: nat,
    edges: Seq<(usize, usize)>,
    source: int,
    target: int,
    connectivity: int,
) -> (routes: Seq<Seq<int>>)
    requires
        edges_in_range(n, edges),
        0 <= source < n,
        0 <= target < n,
        source != target,
        is_max_flow_value(
            split_capacity(n, edges, source, target),
            2 * n,
            split_out(source),
            split_in(target),
            connectivity,
        ),
    ensures
        routes.len() == connectivity,
        are_disjoint_routes(edges, source, target, routes),
{
    let size = 2 * n;
    let c = split_capacity(n, edges, source, target);
    let s = split_out(source);
    let t = split_in(target);
    let f = choose|f: spec_fn(int, int) -> int|
        is_feasible_flow(c, size, s, t, f) && #[trigger] flow_value(size, f, s) == connectivity;
    let zero = |x: int, y: int| 0int;
    assert forall|x: int, y: int| 0 <= x < size && 0 <= y < size implies 0 <= #[trigger] zero(x, y) <= c(x, y) by {
        lemma_multiplicity_as_sum(edges, x, y);
        lemma_sum_nonneg(
            edges.len(),
            |e: int|
                if split_out(edges[e].0 as int) == x && split_in(edges[e].1 as int) == y {
                    1int
                } else {
                    0int
                },
        );
    }
    assert forall|x: int| 0 <= x < size implies #[trigger] inflow(size, zero, x) == 0 && outflow(size, zero, x) == 0 by {
        lemma_sum_zero(size, |y: int| zero(y, x));
        lemma_sum_zero(size, |y: int| zero(x, y));
    }
    assert(is_feasible_flow(c, size, s, t, zero));
    assert(flow_value(size, zero, s) == 0);
    assert(0 <= connectivity);
    assert forall|x: int, y: int|
        0 <= x < size && 0 <= y < size && x % 2 == 1 implies #[trigger] f(x, y) + used_count(
        edges,
        Set::<int>::empty(),
        x,
        y,
    ) <= edge_multiplicity(edges, x, y) by {
        lemma_sum_zero(edges.len(), |e: int| used_hit(edges, Set::<int>::empty(), x, y, e));
        assert(f(x, y) <= c(x, y));
    }
    lemma_decompose(n, edges, source, target, f, connectivity as nat, Set::<int>::empty())
}

/// The vertex connectivity is the largest number of routes from `source` to
/// `target` that share no edge and no intermediate node (Menger's theorem).
pub proof fn lemma_connectivity_counts_disjoint_routes(
    n: nat,
    edges: Seq<(usize, usize)>,
    source: int,
    target: int,
    connectivity: int,
)
    requires
        edges_in_range(n, edges),
        0 <= source < n,
        0 <= target < n,
        source != target,
        is_max_flow_value(
            split_capacity(n, edges, source, target),
            2 * n,
            split_out(source),
            split_in(target),
            connectivity,
        ),
    ensures
        is_max_disjoint_route_count(edges, source, target, connectivity),
{
    let witness = lemma_connectivity_is_attained(n, edges, source, target, connectivity);
    assert(are_disjoint_routes(edges, source, target, witness) && witness.len() == connectivity);
    assert forall|routes: Seq<Seq<int>>|
        #[trigger] are_disjoint_routes(edges, source, target, routes) implies routes.len()
        <= connectivity by {
        lemma_disjoint_routes_within_connectivity(n, edges, source, target, routes, connectivity);
    }
}


/// Disjoint routes stay disjoint routes in an edge list that agrees with the
/// first on every position they take.
proof fn lemma_routes_agree(
    ea: Seq<(usize, usize)>,
    eb: Seq<(usize, usize)>,
    m: int,
    s: int,
    t: int,
    routes: Seq<Seq<int>>,
)
    requires
        are_disjoint_routes(ea, s, t, routes),
        m <= ea.len(),
        m <= eb.len(),
        forall|i: int| 0 <= i < m ==> #[trigger] eb[i] == ea[i],
        forall|p: int, i: int| 0 <= p < routes.len() && 0 <= i < routes[p].len() ==> #[trigger] routes[p][i] < m,
    ensures
        are_disjoint_routes(eb, s, t, routes),
{
    assert forall|p: int| 0 <= p < routes.len() implies is_route(eb, s, t, #[trigger] routes[p]) by {
        let r = routes[p];
        assert(is_route(ea, s, t, r));
        assert forall|i: int| 0 <= i < r.len() implies 0 <= #[trigger] r[i] < eb.len() && eb[r[i]] == ea[r[i]] by {
            assert(routes[p][i] < m);
        }
        assert(eb[r[0]] == ea[r[0]]);
        assert(eb[r.last()] == ea[r.last()]);
        assert forall|i: int| 0 <= i < r.len() - 1 implies #[trigger] eb[r[i]].1 == eb[r[i + 1]].0 by {
            assert(eb[r[i]] == ea[r[i]]);
            assert(eb[r[i + 1]] == ea[r[i + 1]]);
            assert(ea[r[i]].1 == ea[r[i + 1]].0);
        }
    }
    assert forall|p: int, i: int| 0 <= p < routes.len() && 0 <= i < routes[p].len() implies #[trigger] inner_node(
        eb,
        routes[p],
        i,
    ) == inner_node(ea, routes[p], i) by {
        assert(routes[p][i] < m);
        assert(0 <= routes[p][i]) by {
            assert(is_route(ea, s, t, routes[p]));
        }
        assert(eb[routes[p][i]] == ea[routes[p][i]]);
    }
}

/// Leaving one route out of a family of disjoint routes leaves disjoint routes.
proof fn lemma_remove_route(e: Seq<(usize, usize)>, s: int, t: int, routes: Seq<Seq<int>>, k: int)
    requires
        are_disjoint_routes(e, s, t, routes),
        0 <= k < routes.len(),
    ensures
        are_disjoint_routes(e, s, t, routes.remove(k)),
{
    let rest = routes.remove(k);
    let idx = |q: int| if q < k { q } else { q + 1 };
    assert forall|q: int| 0 <= q < rest.len() implies #[trigger] rest[q] == routes[idx(q)] by {}
    assert forall|p: int| 0 <= p < rest.len() implies is_route(e, s, t, #[trigger] rest[p]) by {
        assert(rest[p] == routes[idx(p)]);
    }
    assert forall|p: int, i: int| 0 <= p < rest.len() && 0 <= i < rest[p].len() - 1 implies #[trigger] inner_node(
        e,
        rest[p],
        i,
    ) != s && inner_node(e, rest[p], i) != t by {
        assert(rest[p] == routes[idx(p)]);
        assert(inner_node(e, routes[idx(p)], i) != s);
    }
    assert forall|p: int, i: int, q: int, j: int|
        0 <= p < rest.len() && 0 <= i < rest[p].len() - 1 && 0 <= q < rest.len() && 0 <= j
            < rest[q].len() - 1 && #[trigger] inner_node(e, rest[p], i) == #[trigger] inner_node(
            e,
            rest[q],
            j,
        ) implies p == q && i == j by {
        assert(rest[p] == routes[idx(p)]);
        assert(rest[q] == routes[idx(q)]);
        assert(inner_node(e, routes[idx(p)], i) == inner_node(e, routes[idx(q)], j));
    }
    assert forall|p: int, i: int, q: int, j: int|
        0 <= p < rest.len() && 0 <= i < rest[p].len() && 0 <= q < rest.len() && 0 <= j
            < rest[q].len() && #[trigger] rest[p][i] == #[trigger] rest[q][j] implies p == q && i
        == j by {
        assert(rest[p] == routes[idx(p)]);
        assert(rest[q] == routes[idx(q)]);
        assert(routes[idx(p)][i] == routes[idx(q)][j]);
    }
}

/// Adding an edge never lowers the vertex connectivity and raises it by at
/// most one: of disjoint routes, at most one can take the new edge.
pub proof fn lemma_added_edge_raises_connectivity_by_at_most_one(
    edges: Seq<(usize, usize)>,
    edge: (usize, usize),
    source: int,
    target: int,
    before: int,
    after: int,
)
    requires
        is_max_disjoint_route_count(edges, source, target, before),
        is_max_disjoint_route_count(edges.push(edge), source, target, after),
    ensures
        before <= after <= before + 1,
{
    let grown = edges.push(edge);
    let m = edges.len() as int;
    assert forall|i: int| 0 <= i < m implies #[trigger] grown[i] == edges[i] by {}
    let old_routes = choose|routes: Seq<Seq<int>>|
        #[trigger] are_disjoint_routes(edges, source, target, routes) && routes.len() == before;
    assert forall|p: int, i: int| 0 <= p < old_routes.len() && 0 <= i < old_routes[p].len() implies #[trigger] old_routes[p][i] < m by {
        assert(is_route(edges, source, target, old_routes[p]));
    }
    lemma_routes_agree(edges, grown, m, source, target, old_routes);
    assert(old_routes.len() <= after);
    let new_routes = choose|routes: Seq<Seq<int>>|
        #[trigger] are_disjoint_routes(grown, source, target, routes) && routes.len() == after;
    if exists|p: int, i: int| 0 <= p < new_routes.len() && 0 <= i < new_routes[p].len() && #[trigger] new_routes[p][i] == m {
        let (k, ki) = choose|p: int, i: int|
            0 <= p < new_routes.len() && 0 <= i < new_routes[p].len() && #[trigger] new_routes[p][i] == m;
        lemma_remove_route(grown, source, target, new_routes, k);
        let rest = new_routes.remove(k);
        assert forall|p: int, i: int| 0 <= p < rest.len() && 0 <= i < rest[p].len() implies #[trigger] rest[p][i] < m by {
            let q = if p < k { p } else { p + 1 };
            assert(rest[p] == new_routes[q]);
            assert(is_route(grown, source, target, new_routes[q]));
            if new_routes[q][i] == m {
                assert(new_routes[q][i] == new_routes[k][ki]);
            }
        }
        lemma_routes_agree(grown, edges, m, source, target, rest);
        assert(rest.len() <= before);
    } else {
        assert forall|p: int, i: int| 0 <= p < new_routes.len() && 0 <= i < new_routes[p].len() implies #[trigger] new_routes[p][i] < m by {
            assert(is_route(grown, source, target, new_routes[p]));
        }
        lemma_routes_agree(grown, edges, m, source, target, new_routes);
        assert(new_routes.len() <= before);
    }
}


/// The out-degree and in-degree counted position by position.
proof fn lemma_degrees_as_sums(edges: Seq<(usize, usize)>, s: int, t: int)
    ensures
        out_degree(edges, s) == sum(edges.len(), |e: int| if edges[e].0 as int == s { 1int } else { 0int }),
        in_degree(edges, t) == sum(edges.len(), |e: int| if edges[e].1 as int == t { 1int } else { 0int }),
    decreases edges.len(),
{
    if edges.len() > 0 {
        let d = edges.drop_last();
        lemma_degrees_as_sums(d, s, t);
        lemma_sum_ext(
            d.len(),
            |e: int| if edges[e].0 as int == s { 1int } else { 0int },
            |e: int| if d[e].0 as int == s { 1int } else { 0int },
        );
        lemma_sum_ext(
            d.len(),
            |e: int| if edges[e].1 as int == t { 1int } else { 0int },
            |e: int| if d[e].1 as int == t { 1int } else { 0int },
        );
    }
}

/// The largest number of disjoint routes is not negative, and is at most
/// the edges leaving the source and at most the edges entering the target:
/// each route starts on an edge of its own out of the source and ends on an
/// edge of its own into the target.
pub proof fn lemma_route_count_within_degrees(edges: Seq<(usize, usize)>, source: int, target: int, k: int)
    requires
        is_max_disjoint_route_count(edges, source, target, k),
    ensures
        0 <= k,
        k <= out_degree(edges, source),
        k <= in_degree(edges, target),
{
    assert(are_disjoint_routes(edges, source, target, Seq::<Seq<int>>::empty()));
    let routes = choose|routes: Seq<Seq<int>>|
        #[trigger] are_disjoint_routes(edges, source, target, routes) && routes.len() == k;
    let m = edges.len();
    let kk = k as nat;
    let first = |q: int| routes[q][0];
    let last = |q: int| routes[q][routes[q].len() - 1];
    assert forall|q: int| 0 <= q < kk implies 0 <= #[trigger] first(q) < m && 0 <= last(q) < m by {
        assert(is_route(edges, source, target, routes[q]));
        assert(routes[q][0] == routes[q][0]);
        assert(0 <= routes[q][routes[q].len() - 1] < m);
    }
    assert forall|a: int, b: int| 0 <= a < kk && 0 <= b < kk && #[trigger] first(a) == #[trigger] first(b) implies a == b by {
        assert(is_route(edges, source, target, routes[a]));
        assert(is_route(edges, source, target, routes[b]));
        assert(routes[a][0] == routes[b][0]);
    }
    assert forall|q: int| 0 <= q < kk implies 0 <= #[trigger] last(q) < m by {
        assert(is_route(edges, source, target, routes[q]));
        assert(0 <= routes[q][routes[q].len() - 1] < m);
    }
    assert forall|a: int, b: int| 0 <= a < kk && 0 <= b < kk && #[trigger] last(a) == #[trigger] last(b) implies a == b by {
        assert(is_route(edges, source, target, routes[a]));
        assert(is_route(edges, source, target, routes[b]));
        let i = routes[a].len() - 1;
        let j = routes[b].len() - 1;
        assert(routes[a][i] == routes[b][j]);
    }
    lemma_count_distinct(m, kk, first);
    lemma_count_distinct(m, kk, last);
    lemma_degrees_as_sums(edges, source, target);
    let out_ind = |e: int| if edges[e].0 as int == source { 1int } else { 0int };
    let in_ind = |e: int| if edges[e].1 as int == target { 1int } else { 0int };
    assert forall|e: int| 0 <= e < m implies #[trigger] picked(first, kk, e) <= out_ind(e) by {
        if exists|q: int| 0 <= q < kk && #[trigger] first(q) == e {
            let q = choose|q: int| 0 <= q < kk && #[trigger] first(q) == e;
            assert(is_route(edges, source, target, routes[q]));
        }
    }
    assert forall|e: int| 0 <= e < m implies #[trigger] picked(last, kk, e) <= in_ind(e) by {
        if exists|q: int| 0 <= q < kk && #[trigger] last(q) == e {
            let q = choose|q: int| 0 <= q < kk && #[trigger] last(q) == e;
            assert(is_route(edges, source, target, routes[q]));
        }
    }
    lemma_sum_le(m, |e: int| picked(first, kk, e), out_ind);
    lemma_sum_le(m, |e: int| picked(last, kk, e), in_ind);
}

/// An edge straight from the source to a different target is a route of its
/// own, so the largest number of disjoint routes is then at least one.
pub proof fn lemma_direct_edge_gives_a_route(edges: Seq<(usize, usize)>, source: int, target: int, k: int, e: int)
    requires
        is_max_disjoint_route_count(edges, source, target, k),
        0 <= e < edges.len(),
        edges[e].0 as int == source,
        edges[e].1 as int == target,
    ensures
        k >= 1,
{
    let route = seq![e];
    let routes = seq![route];
    assert(is_route(edges, source, target, route));
    assert forall|p: int, i: int, q: int, j: int|
        0 <= p < routes.len() && 0 <= i < routes[p].len() && 0 <= q < routes.len() && 0 <= j
            < routes[q].len() && #[trigger] routes[p][i] == #[trigger] routes[q][j] implies p == q && i
        == j by {}
    assert(are_disjoint_routes(edges, source, target, routes));
}

} // verus!
