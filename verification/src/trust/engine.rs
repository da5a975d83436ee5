//! Path diversity of every user reachable from an anchor.
//!
//! The reachable users and the endorsements among them are loaded elsewhere;
//! here they are numbered, turned into a [`FlowGraph`], and each user other
//! than the anchor gets its vertex connectivity from the anchor.
use vstd::prelude::*;

use crate::ids::{
    is_last_position, last_index_of, lemma_last_index_bounds, lemma_last_index_is_last, occurs,
    slot_in, slot_map,
};
use crate::trust::flow_theory::is_max_flow_value;
use crate::trust::max_flow::{
    edges_in_range, graph_fits_i32, lemma_graph_fits_query, split_capacity, split_in, split_out,
    FlowGraph,
};
use crate::trust::paths::is_max_disjoint_route_count;

verus! {

/// The endorsements whose two ends are both numbered, as index pairs, in order.
pub open spec fn indexed_edges(ids: Seq<u128>, edges: Seq<(u128, u128)>) -> Seq<(usize, usize)>
    decreases edges.len(),
{
    if edges.len() == 0 {
        Seq::empty()
    } else {
        let prev = indexed_edges(ids, edges.drop_last());
        let i = last_index_of(ids, edges.last().0);
        let j = last_index_of(ids, edges.last().1);
        if i >= 0 && j >= 0 {
            prev.push((i as usize, j as usize))
        } else {
            prev
        }
    }
}

/// Positions of the users other than the anchor, in order.
pub open spec fn non_anchor_positions(ids: Seq<u128>, anchor: u128) -> Seq<int>
    decreases ids.len(),
{
    if ids.len() == 0 {
        Seq::empty()
    } else {
        let prev = non_anchor_positions(ids.drop_last(), anchor);
        if ids.last() != anchor {
            prev.push(ids.len() - 1)
        } else {
            prev
        }
    }
}

/// The node the flow starts from: the anchor's slot, or 0 when it is not listed.
pub open spec fn anchor_slot(ids: Seq<u128>, anchor: u128) -> int {
    if last_index_of(ids, anchor) >= 0 {
        last_index_of(ids, anchor)
    } else {
        0
    }
}

/// `c` is the vertex connectivity from `s` to `t` in the graph on `n` nodes:
/// 0 for a degenerate pair, else the maximum flow of the vertex-split network,
/// which is the largest number of routes sharing no edge and no intermediate node.
pub open spec fn is_connectivity(n: nat, edges: Seq<(usize, usize)>, s: int, t: int, c: int) -> bool {
    if s == t || s < 0 || t < 0 || s >= n || t >= n {
        c == 0
    } else {
        &&& is_max_flow_value(split_capacity(n, edges, s, t), 2 * n, split_out(s), split_in(t), c)
        &&& is_max_disjoint_route_count(edges, s, t, c)
    }
}

/// The diversity recorded for `user`: pinned to `i32::MAX` for the anchor,
/// else the last value listed for the user, else 0.
pub open spec fn recorded_diversity(pairs: Seq<(u128, i32)>, user: u128, anchor: u128) -> int
    decreases pairs.len(),
{
    if user == anchor {
        i32::MAX as int
    } else if pairs.len() == 0 {
        0
    } else if pairs.last().0 == user {
        pairs.last().1 as int
    } else {
        recorded_diversity(pairs.drop_last(), user, anchor)
    }
}

proof fn lemma_positions_bounded(ids: Seq<u128>, anchor: u128)
    ensures
        non_anchor_positions(ids, anchor).len() <= ids.len(),
        forall|k: int|
            0 <= k < non_anchor_positions(ids, anchor).len() ==> 0 <= #[trigger] non_anchor_positions(
                ids,
                anchor,
            )[k] < ids.len() && ids[non_anchor_positions(ids, anchor)[k]] != anchor,
    decreases ids.len(),
{
    if ids.len() > 0 {
        lemma_positions_bounded(ids.drop_last(), anchor);
    }
}

proof fn lemma_indexed_edges_in_range(ids: Seq<u128>, edges: Seq<(u128, u128)>)
    ensures
        edges_in_range(ids.len(), indexed_edges(ids, edges)),
        indexed_edges(ids, edges).len() <= edges.len(),
    decreases edges.len(),
{
    if edges.len() > 0 {
        lemma_indexed_edges_in_range(ids, edges.drop_last());
        lemma_last_index_bounds(ids, edges.last().0);
        lemma_last_index_bounds(ids, edges.last().1);
    }
}

/// Path diversity from `anchor` to every other listed user.
///
/// `ids` numbers the reachable users (node `i` is `ids[i]`); `edges` are the
/// endorsements among them as (endorser, subject). An endorsement with an end
/// that is not listed is left out. Each user other than the anchor, in the
/// order listed, is paired with its vertex connectivity from the anchor's
/// node (node 0 when the anchor is not listed). The counts the computation
/// works with must fit in `i32`: fewer than `i32::MAX` users, at most
/// `i32::MAX` endorsements by the anchor, and no endorsement repeated so
/// often that its copies (with a node's own capacity, for a loop) pass
/// `i32::MAX`.
pub fn diversity_scores(ids: &Vec<u128>, edges: &Vec<(u128, u128)>, anchor: u128) -> (out: Vec<(u128, i32)>)
    requires
        graph_fits_i32(ids@.len(), indexed_edges(ids@, edges@), anchor_slot(ids@, anchor)),
    ensures
        out@.len() == non_anchor_positions(ids@, anchor).len(),
        forall|k: int|
            #![trigger out@[k]]
            0 <= k < out@.len() ==> {
                let p = non_anchor_positions(ids@, anchor)[k];
                &&& out@[k].0 == ids@[p]
                &&& is_connectivity(
                    ids@.len(),
                    indexed_edges(ids@, edges@),
                    anchor_slot(ids@, anchor),
                    p,
                    out@[k].1 as int,
                )
            },
{
    let n = ids.len();
    let slots = slot_map(ids);
    let mut graph = FlowGraph::new(n);
    let mut e: usize = 0;
    while e < edges.len()
        invariant
            e <= edges@.len(),
            n == ids@.len(),
            forall|id: u128| #[trigger] slots@.contains_key(id) <==> last_index_of(ids@, id) >= 0,
            forall|id: u128| slots@.contains_key(id) ==> #[trigger] slots@[id] as int == last_index_of(ids@, id),
            graph@ == (n as nat, indexed_edges(ids@, edges@.take(e as int))),
        decreases edges@.len() - e,
    {
        assert(edges@.take(e + 1).drop_last() =~= edges@.take(e as int));
        let (from_id, to_id) = edges[e];
        let from = slot_in(&slots, from_id);
        let to = slot_in(&slots, to_id);
        match (from, to) {
            (Some(i), Some(j)) => {
                graph.add_edge(i, j);
            },
            _ => {},
        }
        e = e + 1;
    }
    assert(edges@.take(edges@.len() as int) =~= edges@);
    let ghost g_edges = indexed_edges(ids@, edges@);
    proof {
        lemma_indexed_edges_in_range(ids@, edges@);
        lemma_last_index_bounds(ids@, anchor);
    }
    let source = match slot_in(&slots, anchor) {
        Some(i) => i,
        None => 0,
    };
    let mut out: Vec<(u128, i32)> = Vec::new();
    let mut i: usize = 0;
    while i < n
        invariant
            i <= n,
            n == ids@.len(),
            graph@ == (n as nat, g_edges),
            g_edges == indexed_edges(ids@, edges@),
            edges_in_range(n as nat, g_edges),
            graph_fits_i32(n as nat, g_edges, source as int),
            source as int == anchor_slot(ids@, anchor),
            out@.len() == non_anchor_positions(ids@.take(i as int), anchor).len(),
            forall|k: int|
                #![trigger out@[k]]
                0 <= k < out@.len() ==> {
                    let p = non_anchor_positions(ids@.take(i as int), anchor)[k];
                    &&& out@[k].0 == ids@[p]
                    &&& is_connectivity(n as nat, g_edges, source as int, p, out@[k].1 as int)
                },
        decreases n - i,
    {
        let ghost before = ids@.take(i as int);
        let ghost after = ids@.take(i + 1);
        assert(after.drop_last() =~= before);
        proof {
            lemma_positions_bounded(before, anchor);
        }
        let user = ids[i];
        if user != anchor {
            proof {
                lemma_graph_fits_query(n as nat, g_edges, source as int, i as int);
            }
            let c = graph.vertex_connectivity(source, i);
            out.push((user, c));
            assert(non_anchor_positions(after, anchor) == non_anchor_positions(before, anchor).push(
                i as int,
            ));
        } else {
            assert(non_anchor_positions(after, anchor) == non_anchor_positions(before, anchor));
        }
        proof {
            lemma_positions_bounded(after, anchor);
        }
        i = i + 1;
    }
    assert(ids@.take(n as int) =~= ids@);
    out
}

/// The diversity written for `user` after a recomputation from `anchor`: the
/// anchor is pinned to `i32::MAX`; any other user takes the last value listed
/// for it in `diversities`, or 0 when none is.
pub fn diversity_for(user: u128, anchor: u128, diversities: &Vec<(u128, i32)>) -> (d: i32)
    ensures
        d as int == recorded_diversity(diversities@, user, anchor),
{
    if user == anchor {
        return i32::MAX;
    }
    let mut k: usize = diversities.len();
    assert(diversities@.take(k as int) =~= diversities@);
    while k > 0
        invariant
            k <= diversities@.len(),
            user != anchor,
            recorded_diversity(diversities@, user, anchor) == recorded_diversity(
                diversities@.take(k as int),
                user,
                anchor,
            ),
        decreases k,
    {
        assert(diversities@.take(k as int).drop_last() =~= diversities@.take(k - 1));
        let (id, value) = diversities[k - 1];
        if id == user {
            return value;
        }
        k = k - 1;
    }
    0
}


/// The diversity written for a user other than the anchor is the value the
/// list pairs with that user (the last such pair), and 0 only when the list
/// names no such user; the anchor is always written with `i32::MAX`.
pub proof fn lemma_recorded_diversity_is_last_pair(pairs: Seq<(u128, i32)>, user: u128, anchor: u128)
    ensures
        user == anchor ==> recorded_diversity(pairs, user, anchor) == i32::MAX,
        user != anchor && (exists|i: int| 0 <= i < pairs.len() && pairs[i].0 == user) ==> exists|i: int|
            0 <= i < pairs.len() && pairs[i].0 == user && recorded_diversity(pairs, user, anchor)
                == pairs[i].1 && forall|j: int| i < j < pairs.len() ==> pairs[j].0 != user,
        user != anchor && (forall|i: int| 0 <= i < pairs.len() ==> pairs[i].0 != user)
            ==> recorded_diversity(pairs, user, anchor) == 0,
    decreases pairs.len(),
{
    if pairs.len() > 0 && user != anchor {
        let d = pairs.drop_last();
        lemma_recorded_diversity_is_last_pair(d, user, anchor);
        if pairs.last().0 == user {
            assert(pairs[pairs.len() - 1].0 == user);
        } else if exists|i: int| 0 <= i < pairs.len() && pairs[i].0 == user {
            let i = choose|i: int| 0 <= i < pairs.len() && pairs[i].0 == user;
            assert(d[i].0 == user);
            let w = choose|w: int|
                0 <= w < d.len() && d[w].0 == user && recorded_diversity(d, user, anchor) == d[w].1
                    && forall|j: int| w < j < d.len() ==> d[j].0 != user;
            assert(pairs[w] == d[w]);
            assert forall|j: int| w < j < pairs.len() implies pairs[j].0 != user by {
                if j < d.len() {
                    assert(pairs[j] == d[j]);
                }
            }
        } else {
            assert forall|i: int| 0 <= i < d.len() implies d[i].0 != user by {
                assert(pairs[i] == d[i]);
            }
        }
    }
}


/// The users scored are exactly those other than the anchor, each once, in
/// the order listed.
pub proof fn lemma_non_anchor_positions_are_the_others(ids: Seq<u128>, anchor: u128)
    ensures
        forall|k: int|
            0 <= k < non_anchor_positions(ids, anchor).len() ==> 0 <= #[trigger] non_anchor_positions(
                ids,
                anchor,
            )[k] < ids.len() && ids[non_anchor_positions(ids, anchor)[k]] != anchor,
        forall|k1: int, k2: int|
            0 <= k1 < k2 < non_anchor_positions(ids, anchor).len() ==> #[trigger] non_anchor_positions(
                ids,
                anchor,
            )[k1] < #[trigger] non_anchor_positions(ids, anchor)[k2],
        forall|p: int|
            0 <= p < ids.len() && #[trigger] ids[p] != anchor ==> exists|k: int|
                0 <= k < non_anchor_positions(ids, anchor).len() && #[trigger] non_anchor_positions(
                    ids,
                    anchor,
                )[k] == p,
    decreases ids.len(),
{
    if ids.len() > 0 {
        let d = ids.drop_last();
        lemma_non_anchor_positions_are_the_others(d, anchor);
        let prev = non_anchor_positions(d, anchor);
        let all = non_anchor_positions(ids, anchor);
        assert forall|k: int| 0 <= k < prev.len() implies #[trigger] all[k] == prev[k] && ids[prev[k]] == d[prev[k]] by {}
        assert forall|p: int| 0 <= p < ids.len() && #[trigger] ids[p] != anchor implies exists|k: int|
            0 <= k < all.len() && #[trigger] all[k] == p by {
            if p < d.len() {
                assert(d[p] == ids[p]);
                let k = choose|k: int| 0 <= k < prev.len() && #[trigger] prev[k] == p;
                assert(all[k] == prev[k]);
            } else {
                assert(all[all.len() - 1] == p);
            }
        }
    }
}

/// The flow starts from the anchor's node (its last listed position) when
/// the anchor is listed, and from node 0 otherwise.
pub proof fn lemma_anchor_slot_is_the_anchor(ids: Seq<u128>, anchor: u128)
    ensures
        occurs(ids, anchor) ==> is_last_position(ids, anchor_slot(ids, anchor), anchor),
        !occurs(ids, anchor) ==> anchor_slot(ids, anchor) == 0,
{
    lemma_last_index_is_last(ids, anchor);
}

/// The graph holds exactly the endorsements whose two ends are listed, each
/// once and in order, as the nodes of its ends (the last position listed
/// for each id): `src[k]` is the endorsement that became edge `k`.
pub proof fn lemma_indexed_edges_are_the_listed_endorsements(ids: Seq<u128>, edges: Seq<(u128, u128)>) -> (src: Seq<int>)
    requires
        ids.len() <= usize::MAX,
    ensures
        src.len() == indexed_edges(ids, edges).len(),
        forall|k: int|
            0 <= k < src.len() ==> {
                &&& 0 <= #[trigger] src[k] < edges.len()
                &&& is_last_position(ids, indexed_edges(ids, edges)[k].0 as int, edges[src[k]].0)
                &&& is_last_position(ids, indexed_edges(ids, edges)[k].1 as int, edges[src[k]].1)
            },
        forall|k1: int, k2: int| 0 <= k1 < k2 < src.len() ==> #[trigger] src[k1] < #[trigger] src[k2],
        forall|e: int|
            0 <= e < edges.len() && occurs(ids, #[trigger] edges[e].0) && occurs(ids, edges[e].1) ==> exists|k: int|
                0 <= k < src.len() && #[trigger] src[k] == e,
    decreases edges.len(),
{
    if edges.len() == 0 {
        Seq::empty()
    } else {
        let d = edges.drop_last();
        let prev = lemma_indexed_edges_are_the_listed_endorsements(ids, d);
        let last = edges.last();
        lemma_last_index_is_last(ids, last.0);
        lemma_last_index_is_last(ids, last.1);
        lemma_last_index_bounds(ids, last.0);
        lemma_last_index_bounds(ids, last.1);
        let i = last_index_of(ids, last.0);
        let j = last_index_of(ids, last.1);
        let before = indexed_edges(ids, d);
        let all = indexed_edges(ids, edges);
        let src = if i >= 0 && j >= 0 {
            prev.push(edges.len() - 1)
        } else {
            prev
        };
        assert forall|k: int| 0 <= k < prev.len() implies #[trigger] src[k] == prev[k] && all[k] == before[k]
            && edges[prev[k]] == d[prev[k]] by {}
        if i >= 0 && j >= 0 {
            let k = src.len() - 1;
            assert(src[k] == edges.len() - 1);
            assert(all[k] == (i as usize, j as usize));
        }
        assert forall|e: int|
            0 <= e < edges.len() && occurs(ids, #[trigger] edges[e].0) && occurs(ids, edges[e].1) implies exists|k: int|
            0 <= k < src.len() && #[trigger] src[k] == e by {
            if e < d.len() {
                assert(d[e] == edges[e]);
                assert(occurs(ids, d[e].0) && occurs(ids, d[e].1));
                let k = choose|k: int| 0 <= k < prev.len() && #[trigger] prev[k] == e;
                assert(src[k] == prev[k]);
            } else {
                assert(src[src.len() - 1] == e);
            }
        }
        src
    }
}

} // verus!
