//! Finite sums, network flows and the cut bound that certifies a maximum flow.
//!
//! A network on vertices `0..size` is given by a capacity function `c`.
//! A flow is any integer function `f` on pairs of vertices; it is feasible
//! when `0 <= f(u, v) <= c(u, v)` and every vertex other than the source and
//! the sink passes on exactly what it receives.
use vstd::prelude::*;

verus! {

/// `g(0) + g(1) + ... + g(n - 1)`.
pub open spec fn sum(n: nat, g: spec_fn(int) -> int) -> int
    decreases n,
{
    if n == 0 {
        0
    } else {
        sum((n - 1) as nat, g) + g(n - 1)
    }
}

/// Total flow leaving `u`.
pub open spec fn outflow(size: nat, f: spec_fn(int, int) -> int, u: int) -> int {
    sum(size, |v: int| f(u, v))
}

/// Total flow entering `u`.
pub open spec fn inflow(size: nat, f: spec_fn(int, int) -> int, u: int) -> int {
    sum(size, |v: int| f(v, u))
}

/// Net flow out of the source.
pub open spec fn flow_value(size: nat, f: spec_fn(int, int) -> int, s: int) -> int {
    outflow(size, f, s) - inflow(size, f, s)
}

/// `f` respects the capacities `c` and is conserved at every vertex but `s` and `t`.
pub open spec fn is_feasible_flow(
    c: spec_fn(int, int) -> int,
    size: nat,
    s: int,
    t: int,
    f: spec_fn(int, int) -> int,
) -> bool {
    &&& forall|u: int, v: int|
        0 <= u < size && 0 <= v < size ==> 0 <= #[trigger] f(u, v) <= c(u, v)
    &&& forall|u: int|
        0 <= u < size && u != s && u != t ==> #[trigger] inflow(size, f, u) == outflow(
            size,
            f,
            u,
        )
}

/// `k` is the value of a maximum flow from `s` to `t`: some feasible flow
/// reaches it and no feasible flow exceeds it.
pub open spec fn is_max_flow_value(
    c: spec_fn(int, int) -> int,
    size: nat,
    s: int,
    t: int,
    k: int,
) -> bool {
    &&& exists|f: spec_fn(int, int) -> int|
        is_feasible_flow(c, size, s, t, f) && #[trigger] flow_value(size, f, s) == k
    &&& forall|f: spec_fn(int, int) -> int|
        is_feasible_flow(c, size, s, t, f) ==> #[trigger] flow_value(size, f, s) <= k
}

/// Net flow of `f` from the vertices in `side` to those outside it.
pub open spec fn cut_net(size: nat, f: spec_fn(int, int) -> int, side: spec_fn(int) -> bool) -> int {
    sum(
        size,
        |u: int|
            if side(u) {
                sum(size, |v: int| if !side(v) { f(u, v) - f(v, u) } else { 0 })
            } else {
                0
            },
    )
}

/// Capacity of the edges that leave `side`.
pub open spec fn cut_capacity(size: nat, c: spec_fn(int, int) -> int, side: spec_fn(int) -> bool) -> int {
    sum(
        size,
        |u: int|
            if side(u) {
                sum(size, |v: int| if !side(v) { c(u, v) } else { 0 })
            } else {
                0
            },
    )
}

pub proof fn lemma_sum_ext(n: nat, f: spec_fn(int) -> int, g: spec_fn(int) -> int)
    requires
        forall|i: int| #![trigger f(i)] #![trigger g(i)] 0 <= i < n ==> f(i) == g(i),
    ensures
        sum(n, f) == sum(n, g),
    decreases n,
{
    if n > 0 {
        lemma_sum_ext((n - 1) as nat, f, g);
    }
}

pub proof fn lemma_sum_zero(n: nat, f: spec_fn(int) -> int)
    requires
        forall|i: int| 0 <= i < n ==> #[trigger] f(i) == 0,
    ensures
        sum(n, f) == 0,
    decreases n,
{
    if n > 0 {
        lemma_sum_zero((n - 1) as nat, f);
    }
}

pub proof fn lemma_sum_add(n: nat, f: spec_fn(int) -> int, g: spec_fn(int) -> int, h: spec_fn(int) -> int)
    requires
        forall|i: int| #![trigger h(i)] 0 <= i < n ==> h(i) == f(i) + g(i),
    ensures
        sum(n, h) == sum(n, f) + sum(n, g),
    decreases n,
{
    if n > 0 {
        lemma_sum_add((n - 1) as nat, f, g, h);
    }
}

pub proof fn lemma_sum_sub(n: nat, f: spec_fn(int) -> int, g: spec_fn(int) -> int, h: spec_fn(int) -> int)
    requires
        forall|i: int| #![trigger h(i)] 0 <= i < n ==> h(i) == f(i) - g(i),
    ensures
        sum(n, h) == sum(n, f) - sum(n, g),
    decreases n,
{
    if n > 0 {
        lemma_sum_sub((n - 1) as nat, f, g, h);
    }
}

pub proof fn lemma_sum_le(n: nat, f: spec_fn(int) -> int, g: spec_fn(int) -> int)
    requires
        forall|i: int| #![trigger f(i)] #![trigger g(i)] 0 <= i < n ==> f(i) <= g(i),
    ensures
        sum(n, f) <= sum(n, g),
    decreases n,
{
    if n > 0 {
        lemma_sum_le((n - 1) as nat, f, g);
    }
}

pub proof fn lemma_sum_nonneg(n: nat, f: spec_fn(int) -> int)
    requires
        forall|i: int| 0 <= i < n ==> 0 <= #[trigger] f(i),
    ensures
        0 <= sum(n, f),
    decreases n,
{
    if n > 0 {
        lemma_sum_nonneg((n - 1) as nat, f);
    }
}

/// A nonnegative term is at most the sum of all the nonnegative terms.
pub proof fn lemma_sum_term_le(n: nat, f: spec_fn(int) -> int, k: int)
    requires
        0 <= k < n,
        forall|i: int| 0 <= i < n ==> 0 <= #[trigger] f(i),
    ensures
        f(k) <= sum(n, f),
    decreases n,
{
    lemma_sum_nonneg((n - 1) as nat, f);
    if k < n - 1 {
        lemma_sum_term_le((n - 1) as nat, f, k);
    }
}

/// A sum whose terms vanish everywhere but at `k` equals its `k`-th term.
pub proof fn lemma_sum_single(n: nat, f: spec_fn(int) -> int, k: int)
    requires
        0 <= k < n,
        forall|i: int| 0 <= i < n && i != k ==> #[trigger] f(i) == 0,
    ensures
        sum(n, f) == f(k),
    decreases n,
{
    if k == n - 1 {
        lemma_sum_zero((n - 1) as nat, f);
    } else {
        lemma_sum_single((n - 1) as nat, f, k);
    }
}

/// Changing one term of a sum changes the sum by the same amount.
pub proof fn lemma_sum_update(n: nat, f: spec_fn(int) -> int, g: spec_fn(int) -> int, k: int)
    requires
        0 <= k < n,
        forall|i: int| #![trigger f(i)] #![trigger g(i)] 0 <= i < n && i != k ==> f(i) == g(i),
    ensures
        sum(n, g) == sum(n, f) + g(k) - f(k),
    decreases n,
{
    if k == n - 1 {
        lemma_sum_ext((n - 1) as nat, f, g);
    } else {
        lemma_sum_update((n - 1) as nat, f, g, k);
    }
}

/// The order of summation in a double sum does not matter.
pub proof fn lemma_sum_swap(n: nat, m: nat, f: spec_fn(int, int) -> int)
    ensures
        sum(n, |u: int| sum(m, |v: int| f(u, v))) == sum(m, |v: int| sum(n, |u: int| f(u, v))),
    decreases n,
{
    if n > 0 {
        let n1 = (n - 1) as nat;
        lemma_sum_swap(n1, m, f);
        let rows = |v: int| sum(n1, |u: int| f(u, v));
        let last = |v: int| f(n1 as int, v);
        let full = |v: int| sum(n, |u: int| f(u, v));
        assert forall|v: int| 0 <= v < m implies #[trigger] full(v) == rows(v) + last(v) by {
            assert(sum(n, |u: int| f(u, v)) == sum(n1, |u: int| f(u, v)) + f(n1 as int, v));
        }
        lemma_sum_add(m, rows, last, full);
        let row_sums = |u: int| sum(m, |v: int| f(u, v));
        assert(row_sums(n1 as int) == sum(m, last)) by {
            assert((|v: int| f(n1 as int, v)) =~= last);
        }
        assert(sum(n, row_sums) == sum(n1, row_sums) + row_sums(n1 as int));
        assert(sum(n1, row_sums) == sum(m, rows));
        assert(sum(n, row_sums) == sum(m, full));
    } else {
        lemma_sum_zero(m, |v: int| sum(n, |u: int| f(u, v)));
    }
}

/// Flow on the edges inside `side` cancels: the double sum of the net flow
/// between two vertices of `side` is zero.
pub proof fn lemma_inner_net_zero(size: nat, f: spec_fn(int, int) -> int, side: spec_fn(int) -> bool)
    ensures
        sum(
            size,
            |u: int|
                sum(
                    size,
                    |v: int|
                        if side(u) && side(v) {
                            f(u, v) - f(v, u)
                        } else {
                            0
                        },
                ),
        ) == 0,
{
    let d = |u: int, v: int|
        if side(u) && side(v) {
            f(u, v) - f(v, u)
        } else {
            0
        };
    let b = sum(size, |u: int| sum(size, |v: int| d(u, v)));
    lemma_sum_swap(size, size, d);
    // Swapping the roles of the two indices negates every term.
    let swapped = |v: int| sum(size, |u: int| d(u, v));
    let neg_rows = |v: int| -sum(size, |u: int| d(v, u));
    assert forall|v: int| 0 <= v < size implies #[trigger] swapped(v) == neg_rows(v) by {
        let col = |u: int| d(u, v);
        let row = |u: int| d(v, u);
        let zero = |u: int| 0int;
        assert forall|u: int| 0 <= u < size implies #[trigger] col(u) == zero(u) - row(u) by {}
        lemma_sum_sub(size, zero, row, col);
        lemma_sum_zero(size, zero);
    }
    lemma_sum_ext(size, swapped, neg_rows);
    let rows = |v: int| sum(size, |u: int| d(v, u));
    let zero = |v: int| 0int;
    assert forall|v: int| 0 <= v < size implies #[trigger] neg_rows(v) == zero(v) - rows(v) by {}
    lemma_sum_sub(size, zero, rows, neg_rows);
    lemma_sum_zero(size, zero);
    assert(sum(size, rows) == b);
    let d_rows = |u: int| sum(size, |v: int| d(u, v));
    let post_rows = |u: int|
        sum(
            size,
            |v: int|
                if side(u) && side(v) {
                    f(u, v) - f(v, u)
                } else {
                    0
                },
        );
    assert forall|u: int| 0 <= u < size implies #[trigger] post_rows(u) == d_rows(u) by {
        lemma_sum_ext(
            size,
            |v: int|
                if side(u) && side(v) {
                    f(u, v) - f(v, u)
                } else {
                    0
                },
            |v: int| d(u, v),
        );
    }
    lemma_sum_ext(size, post_rows, d_rows);
}

/// The value of a flow that is conserved outside `s` and `t` equals its net
/// flow across any cut that separates `s` from `t`.
pub proof fn lemma_value_is_cut_net(
    size: nat,
    s: int,
    t: int,
    f: spec_fn(int, int) -> int,
    side: spec_fn(int) -> bool,
)
    requires
        0 <= s < size,
        side(s),
        !side(t),
        forall|u: int|
            0 <= u < size && u != s && u != t ==> #[trigger] inflow(size, f, u) == outflow(
                size,
                f,
                u,
            ),
    ensures
        flow_value(size, f, s) == cut_net(size, f, side),
{
    let excess = |u: int| if side(u) { outflow(size, f, u) - inflow(size, f, u) } else { 0 };
    assert forall|u: int| 0 <= u < size && u != s implies #[trigger] excess(u) == 0 by {
        if side(u) {
            assert(inflow(size, f, u) == outflow(size, f, u));
        }
    }
    lemma_sum_single(size, excess, s);
    let inner = |u: int|
        sum(
            size,
            |v: int|
                if side(u) && side(v) {
                    f(u, v) - f(v, u)
                } else {
                    0
                },
        );
    let outer = |u: int|
        if side(u) {
            sum(size, |v: int| if !side(v) { f(u, v) - f(v, u) } else { 0 })
        } else {
            0
        };
    assert forall|u: int| 0 <= u < size implies #[trigger] excess(u) == inner(u) + outer(u) by {
        let net = |v: int| f(u, v) - f(v, u);
        let out_u = |v: int| f(u, v);
        let in_u = |v: int| f(v, u);
        lemma_sum_sub(size, out_u, in_u, net);
        let a = |v: int|
            if side(u) && side(v) {
                f(u, v) - f(v, u)
            } else {
                0
            };
        let b = |v: int| if side(u) && !side(v) { f(u, v) - f(v, u) } else { 0 };
        if side(u) {
            lemma_sum_add(size, a, b, net);
            lemma_sum_ext(size, b, |v: int| if !side(v) { f(u, v) - f(v, u) } else { 0 });
        } else {
            lemma_sum_zero(size, a);
        }
    }
    lemma_sum_add(size, inner, outer, excess);
    lemma_inner_net_zero(size, f, side);
}

/// The flow carried by a residual network: whatever capacity of an edge is no
/// longer available, counted only in the direction in which it is used.
pub open spec fn residual_flow(c: spec_fn(int, int) -> int, r: spec_fn(int, int) -> int) -> spec_fn(
    int,
    int,
) -> int {
    |u: int, v: int|
        if c(u, v) - r(u, v) > 0 {
            c(u, v) - r(u, v)
        } else {
            0
        }
}

/// The residual network `r` arises from `c` by pushing `flow` units from `s`.
pub open spec fn is_residual_of(
    c: spec_fn(int, int) -> int,
    r: spec_fn(int, int) -> int,
    size: nat,
    s: int,
    t: int,
    flow: int,
) -> bool {
    &&& forall|u: int, v: int|
        #![trigger c(u, v)]
        #![trigger r(u, v)]
        0 <= u < size && 0 <= v < size ==> 0 <= c(u, v) && 0 <= r(u, v) && r(u, v) + r(v, u) == c(
            u,
            v,
        ) + c(v, u)
    &&& forall|u: int|
        0 <= u < size && u != s && u != t ==> #[trigger] outflow(size, r, u) == outflow(size, c, u)
    &&& outflow(size, r, s) == outflow(size, c, s) - flow
}

/// Net flow of `residual_flow(c, r)` out of `u` is the capacity out of `u`
/// that the residual network no longer offers.
proof fn lemma_residual_net(c: spec_fn(int, int) -> int, r: spec_fn(int, int) -> int, size: nat, u: int)
    requires
        0 <= u < size,
        forall|x: int, y: int|
            #![trigger c(x, y)]
            #![trigger r(x, y)]
            0 <= x < size && 0 <= y < size ==> r(x, y) + r(y, x) == c(x, y) + c(y, x),
    ensures
        outflow(size, residual_flow(c, r), u) - inflow(size, residual_flow(c, r), u) == outflow(
            size,
            c,
            u,
        ) - outflow(size, r, u),
{
    let f = residual_flow(c, r);
    let out_u = |v: int| f(u, v);
    let in_u = |v: int| f(v, u);
    let net = |v: int| c(u, v) - r(u, v);
    assert forall|v: int| 0 <= v < size implies #[trigger] net(v) == out_u(v) - in_u(v) by {
        assert(r(u, v) + r(v, u) == c(u, v) + c(v, u));
    }
    lemma_sum_sub(size, out_u, in_u, net);
    lemma_sum_sub(size, |v: int| c(u, v), |v: int| r(u, v), net);
}

/// Max-flow/min-cut certificate: if no residual capacity leaves a set that
/// holds the source and not the sink, the flow pushed so far is maximum.
pub proof fn lemma_residual_certifies_max_flow(
    c: spec_fn(int, int) -> int,
    r: spec_fn(int, int) -> int,
    size: nat,
    s: int,
    t: int,
    flow: int,
    side: spec_fn(int) -> bool,
)
    requires
        0 <= s < size,
        0 <= t < size,
        side(s),
        !side(t),
        is_residual_of(c, r, size, s, t, flow),
        forall|u: int, v: int|
            0 <= u < size && 0 <= v < size && side(u) && !side(v) ==> #[trigger] r(u, v) == 0,
    ensures
        is_max_flow_value(c, size, s, t, flow),
{
    let f = residual_flow(c, r);
    assert forall|u: int, v: int| 0 <= u < size && 0 <= v < size implies 0 <= #[trigger] f(u, v)
        <= c(u, v) by {
        assert(0 <= r(u, v));
    }
    assert forall|u: int| 0 <= u < size && u != s && u != t implies #[trigger] inflow(size, f, u)
        == outflow(size, f, u) by {
        lemma_residual_net(c, r, size, u);
    }
    assert(is_feasible_flow(c, size, s, t, f));
    lemma_residual_net(c, r, size, s);
    assert(flow_value(size, f, s) == flow);
    lemma_value_is_cut_net(size, s, t, f, side);
    let net_rows = |u: int|
        if side(u) {
            sum(size, |v: int| if !side(v) { f(u, v) - f(v, u) } else { 0 })
        } else {
            0
        };
    let cap_rows = |u: int|
        if side(u) {
            sum(size, |v: int| if !side(v) { c(u, v) } else { 0 })
        } else {
            0
        };
    assert forall|u: int| 0 <= u < size implies #[trigger] net_rows(u) == cap_rows(u) by {
        if side(u) {
            let a = |v: int| if !side(v) { f(u, v) - f(v, u) } else { 0 };
            let b = |v: int| if !side(v) { c(u, v) } else { 0 };
            assert forall|v: int| 0 <= v < size implies #[trigger] a(v) == b(v) by {
                if !side(v) {
                    assert(r(u, v) == 0);
                    assert(r(u, v) + r(v, u) == c(u, v) + c(v, u));
                    assert(0 <= r(v, u));
                }
            }
            lemma_sum_ext(size, a, b);
        }
    }
    lemma_sum_ext(size, net_rows, cap_rows);
    assert(flow == cut_capacity(size, c, side));
    assert forall|g: spec_fn(int, int) -> int| is_feasible_flow(c, size, s, t, g) implies #[trigger] flow_value(
        size,
        g,
        s,
    ) <= flow by {
        lemma_flow_le_cut(c, size, s, t, g, side);
    }
}

/// The value of every feasible flow is bounded by the capacity of every cut
/// separating the source from the sink.
pub proof fn lemma_flow_le_cut(
    c: spec_fn(int, int) -> int,
    size: nat,
    s: int,
    t: int,
    f: spec_fn(int, int) -> int,
    side: spec_fn(int) -> bool,
)
    requires
        0 <= s < size,
        side(s),
        !side(t),
        is_feasible_flow(c, size, s, t, f),
    ensures
        flow_value(size, f, s) <= cut_capacity(size, c, side),
{
    lemma_value_is_cut_net(size, s, t, f, side);
    let net_rows = |u: int|
        if side(u) {
            sum(size, |v: int| if !side(v) { f(u, v) - f(v, u) } else { 0 })
        } else {
            0
        };
    let cap_rows = |u: int|
        if side(u) {
            sum(size, |v: int| if !side(v) { c(u, v) } else { 0 })
        } else {
            0
        };
    assert forall|u: int| 0 <= u < size implies #[trigger] net_rows(u) <= cap_rows(u) by {
        if side(u) {
            let a = |v: int| if !side(v) { f(u, v) - f(v, u) } else { 0 };
            let b = |v: int| if !side(v) { c(u, v) } else { 0 };
            assert forall|v: int| 0 <= v < size implies #[trigger] a(v) <= b(v) by {
                assert(0 <= f(u, v) <= c(u, v));
                assert(0 <= f(v, u));
            }
            lemma_sum_le(size, a, b);
        }
    }
    lemma_sum_le(size, net_rows, cap_rows);
}

} // verus!
