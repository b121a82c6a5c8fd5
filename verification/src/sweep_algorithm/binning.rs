//! Cutting an order of the customers into routes: a route is filled while the
//! next customer still fits, and that customer opens a new route when it does
//! not.

use vstd::prelude::*;
use crate::algorithm_interface::{
    covers_customers_once, demand_of, demands_fit, is_customer_order, is_in_order,
    lemma_cover_is_order, no_route_is_empty, respects_capacity, route_demand, routes_result_view,
    routes_view, SolveError,
};
use crate::model::joined::joined;

verus! {

/// The routes after the first `k` customers of `order`: the customer joins
/// the last route where the route then still asks for no more than a vehicle
/// holds, and opens a new route where it does not.
pub open spec fn bins(order: Seq<usize>, demands: Seq<usize>, capacity: int, k: int) -> Seq<
    Seq<usize>,
>
    decreases k,
{
    if k <= 0 {
        Seq::empty()
    } else {
        let before = bins(order, demands, capacity, k - 1);
        let node = order[k - 1];
        if before.len() > 0 && route_demand(before.last(), demands) + demand_of(
            demands,
            node as int,
        ) <= capacity {
            before.drop_last().push(before.last().push(node))
        } else {
            before.push(seq![node])
        }
    }
}

/// The routes after the first `k` customers, one after the other, are the
/// first `k` customers of the order.
pub proof fn lemma_bins_join_to_order(order: Seq<usize>, demands: Seq<usize>, capacity: int, k: int)
    requires
        0 <= k <= order.len(),
    ensures
        joined(bins(order, demands, capacity, k)) == order.take(k),
    decreases k,
{
    if k == 0 {
        assert(order.take(0) =~= Seq::<usize>::empty());
    } else {
        lemma_bins_join_to_order(order, demands, capacity, k - 1);
        let before = bins(order, demands, capacity, k - 1);
        let now = bins(order, demands, capacity, k);
        let node = order[k - 1];
        assert(order.take(k) =~= order.take(k - 1).push(node));
        if before.len() > 0 && route_demand(before.last(), demands) + demand_of(
            demands,
            node as int,
        ) <= capacity {
            assert(now.drop_last() =~= before.drop_last());
            assert(joined(now) =~= joined(before.drop_last()) + before.last().push(
                node,
            ));
            assert(joined(now) =~= order.take(k));
        } else {
            assert(now.drop_last() =~= before);
            assert(joined(now) =~= joined(before) + seq![node]);
        }
    }
}

/// The routes after the first `k` customers are within the capacity and
/// not empty.
pub proof fn lemma_bins_fit(order: Seq<usize>, demands: Seq<usize>, capacity: int, n: int, k: int)
    requires
        n <= demands.len(),
        demands_fit(demands, capacity, n),
        is_customer_order(order, n),
        0 <= k <= order.len(),
    ensures
        respects_capacity(bins(order, demands, capacity, k), demands, capacity),
        no_route_is_empty(bins(order, demands, capacity, k)),
    decreases k,
{
    if k > 0 {
        lemma_bins_fit(order, demands, capacity, n, k - 1);
        let before = bins(order, demands, capacity, k - 1);
        let now = bins(order, demands, capacity, k);
        let node = order[k - 1];
        assert(1 <= node < n);
        assert(demands[node as int] <= capacity);
        let joins = before.len() > 0 && route_demand(before.last(), demands) + demand_of(
            demands,
            node as int,
        ) <= capacity;
        if joins {
            assert(before.last().push(node).drop_last() =~= before.last());
        } else {
            let one = seq![node];
            assert(one.drop_last() =~= Seq::<usize>::empty());
            assert(route_demand(one.drop_last(), demands) == 0);
        }
        assert forall|q: int| 0 <= q < now.len() implies route_demand(#[trigger] now[q], demands)
            <= capacity && now[q].len() > 0 by {
            if q < now.len() - 1 {
                assert(now[q] == before[q]);
            }
        }
    }
}

/// The routes of the sweep heuristic are within the capacity, hold each
/// customer once, are not empty, and are, one after the other, the order.
pub proof fn lemma_sweep_routes_are_partition(
    order: Seq<usize>,
    demands: Seq<usize>,
    capacity: usize,
    n: int,
)
    ensures
        sweep_solution(order, demands, capacity, n) matches Ok(routes) ==> {
            &&& respects_capacity(routes, demands, capacity as int)
            &&& covers_customers_once(routes, n)
            &&& no_route_is_empty(routes)
            &&& joined(routes) == order
        },
{
    if let Ok(routes) = sweep_solution(order, demands, capacity, n) {
        lemma_bins_fit(order, demands, capacity as int, n, order.len() as int);
        lemma_bins_join_to_order(order, demands, capacity as int, order.len() as int);
        assert(order.take(order.len() as int) =~= order);
        lemma_cover_is_order(routes, n);
    }
}

/// The routes of the sweep heuristic for `n` nodes and an order of the
/// customers. There are no routes where the demand table is too short, where
/// a customer asks for more than a vehicle holds, and where the order is not
/// one of the customers.
pub open spec fn sweep_solution(
    order: Seq<usize>,
    demands: Seq<usize>,
    capacity: usize,
    n: int,
) -> Result<Seq<Seq<usize>>, SolveError> {
    if demands.len() < n {
        Err(SolveError::MissingDemand)
    } else if !demands_fit(demands, capacity as int, n) {
        Err(SolveError::DemandExceedsCapacity)
    } else if !is_customer_order(order, n) {
        Err(SolveError::InvalidNodes)
    } else {
        Ok(bins(order, demands, capacity as int, order.len() as int))
    }
}

/// Whether `order` holds each customer once, and nothing else.
pub fn check_customer_order(order: &Vec<usize>, n: usize) -> (ok: bool)
    ensures
        ok == is_customer_order(order@, n as int),
{
    let mut seen: Vec<bool> = Vec::new();
    let mut c: usize = 0;
    while c < n
        invariant
            c <= n,
            seen@.len() == c,
            forall|d: int| 0 <= d < c ==> !#[trigger] seen@[d],
        decreases n - c,
    {
        seen.push(false);
        c += 1;
    }
    let ghost mut place: Seq<int> = Seq::new(n as nat, |d: int| 0int);
    let mut t: usize = 0;
    while t < order.len()
        invariant
            t <= order.len(),
            seen@.len() == n,
            place.len() == n,
            forall|u: int| 0 <= u < t ==> 1 <= #[trigger] order@[u] < n && seen@[order@[u] as int],
            forall|u: int, v: int| 0 <= u < v < t ==> #[trigger] order@[u] != #[trigger] order@[v],
            forall|d: int|
                0 <= d < n && #[trigger] seen@[d] ==> 0 <= place[d] < t && order@[place[d]] == d,
        decreases order.len() - t,
    {
        let node = order[t];
        if node < 1 || node >= n {
            return false;
        }
        if seen[node] {
            proof {
                assert(order@[place[node as int]] == order@[t as int]);
            }
            return false;
        }
        seen[node] = true;
        proof {
            place = place.update(node as int, t as int);
        }
        t += 1;
    }
    let mut c: usize = 1;
    while c < n
        invariant
            1 <= c,
            seen@.len() == n,
            place.len() == n,
            forall|d: int| 1 <= d < c && d < n ==> #[trigger] is_in_order(order@, d),
            forall|u: int|
                0 <= u < order@.len() ==> 1 <= #[trigger] order@[u] < n && seen@[order@[u] as int],
            forall|d: int|
                0 <= d < n && #[trigger] seen@[d] ==> 0 <= place[d] < order@.len()
                    && order@[place[d]] == d,
        decreases n - c,
    {
        if !seen[c] {
            proof {
                assert(!is_in_order(order@, c as int));
            }
            return false;
        }
        proof {
            assert(order@[place[c as int]] == c);
        }
        c += 1;
    }
    true
}

/// The routes of the sweep heuristic for an order of the customers.
/// `demands` holds the demand of each node, and `node_count` counts the
/// nodes, the depot included.
pub fn sweep_routes(
    order: &Vec<usize>,
    demands: &Vec<usize>,
    capacity: usize,
    node_count: usize,
) -> (result: Result<Vec<Vec<usize>>, SolveError>)
    ensures
        routes_result_view(result) == sweep_solution(order@, demands@, capacity, node_count as int),
        result matches Ok(routes) ==> {
            &&& respects_capacity(routes_view(&routes), demands@, capacity as int)
            &&& covers_customers_once(routes_view(&routes), node_count as int)
            &&& no_route_is_empty(routes_view(&routes))
            &&& joined(routes_view(&routes)) == order@
        },
{
    let n = node_count;
    if demands.len() < n {
        return Err(SolveError::MissingDemand);
    }
    let mut c: usize = 1;
    while c < n
        invariant
            1 <= c,
            n == node_count,
            n <= demands.len(),
            forall|d: int| 1 <= d < c && d < n ==> #[trigger] demands@[d] <= capacity,
        decreases n - c,
    {
        if demands[c] > capacity {
            proof {
                assert(!(demands@[c as int] <= capacity));
            }
            return Err(SolveError::DemandExceedsCapacity);
        }
        c += 1;
    }
    assert(demands_fit(demands@, capacity as int, n as int));
    if !check_customer_order(order, n) {
        return Err(SolveError::InvalidNodes);
    }
    let mut closed: Vec<Vec<usize>> = Vec::new();
    let mut current: Vec<usize> = Vec::new();
    let mut remaining: usize = capacity;
    let mut k: usize = 0;
    while k < order.len()
        invariant
            k <= order.len(),
            n <= demands.len(),
            demands_fit(demands@, capacity as int, n as int),
            is_customer_order(order@, n as int),
            k == 0 ==> closed@.len() == 0 && current@.len() == 0,
            k > 0 ==> bins(order@, demands@, capacity as int, k as int) == routes_view(
                &closed,
            ).push(current@),
            k > 0 ==> remaining == capacity - route_demand(current@, demands@),
        decreases order.len() - k,
    {
        let ghost before = bins(order@, demands@, capacity as int, k as int);
        let node = order[k];
        assert(1 <= order@[k as int] < n);
        let asked = demands[node];
        assert(asked <= capacity);
        if k > 0 && asked <= remaining {
            let ghost old_current = current@;
            current.push(node);
            remaining -= asked;
            proof {
                assert(current@.drop_last() =~= old_current);
                assert(before.last() == old_current);
                assert(before.drop_last() =~= routes_view(&closed));
            }
        } else {
            if k > 0 {
                closed.push(current);
            }
            proof {
                assert(routes_view(&closed) =~= before);
            }
            current = Vec::new();
            current.push(node);
            remaining = capacity - asked;
            proof {
                assert(current@ =~= seq![node]);
                assert(current@.drop_last() =~= Seq::<usize>::empty());
                assert(route_demand(current@.drop_last(), demands@) == 0);
            }
        }
        k += 1;
    }
    let ghost all = bins(order@, demands@, capacity as int, order@.len() as int);
    if k > 0 {
        closed.push(current);
    }
    proof {
        assert(routes_view(&closed) =~= all);
        lemma_sweep_routes_are_partition(order@, demands@, capacity, n as int);
    }
    Ok(closed)
}

} // verus!
