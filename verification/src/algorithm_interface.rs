//! What a solver is, what can stop it, and what is asked of its routes.

use vstd::prelude::*;
use crate::model::joined::{
    joined, lemma_part_entry, lemma_part_of, lemma_part_starts_grow, part_of, part_start,
};

verus! {

/// Why a solver or the cost evaluator gave no result.
#[derive(Clone, Copy, Debug, PartialEq, Eq, Structural)]
pub enum SolveError {
    /// The instance gives no distance that this library can compute: its
    /// weights are neither an explicit matrix nor planar Euclidean.
    Unsupported,
    /// The data of the instance does not fit its dimension: the coordinate
    /// table or the matrix has not one entry for each node, a coordinate is
    /// out of range, or the node list is not `0, 1, ..`.
    Malformed,
    /// The demand table has no entry for some node.
    MissingDemand,
    /// A customer asks for more than a vehicle holds.
    DemandExceedsCapacity,
    /// A list of nodes names something that is no customer, or names a
    /// customer twice, or leaves one out.
    InvalidNodes,
    /// A sum of distances is larger than the largest number.
    Overflow,
}

/// A solver of the capacitated vehicle routing problem: it gives the routes,
/// each a list of customers, the depot left out.
///
/// What `solve` returns, and for which demands, capacity and number of nodes,
/// is said by `solution`, `demands`, `capacity` and `node_count`, which an
/// implementation states together with `solve`; where it states none of
/// them, they have the values given here.
pub trait CVRPSolver {
    /// What `solve` returns.
    open spec fn solution(&self) -> Result<Seq<Seq<usize>>, SolveError> {
        Err(SolveError::Unsupported)
    }

    /// The demand of each node.
    open spec fn demands(&self) -> Seq<usize> {
        Seq::empty()
    }

    /// What a vehicle holds.
    open spec fn capacity(&self) -> usize {
        0
    }

    /// The number of nodes, the depot counted.
    open spec fn node_count(&self) -> int {
        0
    }

    /// Builds the routes. Each of them is within the capacity, and each
    /// customer is on exactly one of them.
    fn solve(&self) -> (result: Result<Vec<Vec<usize>>, SolveError>)
        ensures
            routes_result_view(result) == self.solution(),
            result matches Ok(routes) ==> {
                &&& respects_capacity(routes_view(&routes), self.demands(), self.capacity() as int)
                &&& covers_customers_once(routes_view(&routes), self.node_count())
            },
    ;
}

/// A solver builds the same routes whenever it is asked: of two results
/// that `solve` may give, for one instance and, where the solver makes
/// draws, one seed, each holds the routes of the other.
pub proof fn lemma_solve_is_repeatable<S: CVRPSolver>(
    solver: &S,
    first: Result<Vec<Vec<usize>>, SolveError>,
    second: Result<Vec<Vec<usize>>, SolveError>,
)
    requires
        routes_result_view(first) == solver.solution(),
        routes_result_view(second) == solver.solution(),
    ensures
        routes_result_view(first) == routes_result_view(second),
{
}

/// The routes as sequences.
pub open spec fn routes_view(routes: &Vec<Vec<usize>>) -> Seq<Seq<usize>> {
    Seq::new(routes@.len(), |k: int| routes@[k]@)
}

/// A solver's result with the routes as sequences.
pub open spec fn routes_result_view(result: Result<Vec<Vec<usize>>, SolveError>) -> Result<
    Seq<Seq<usize>>,
    SolveError,
> {
    match result {
        Ok(routes) => Ok(routes_view(&routes)),
        Err(e) => Err(e),
    }
}

/// The demand of a node; nothing for a node that the table does not hold.
pub open spec fn demand_of(demands: Seq<usize>, node: int) -> int {
    if 0 <= node < demands.len() {
        demands[node] as int
    } else {
        0
    }
}

/// The sum of the demands of the nodes of a route.
pub open spec fn route_demand(route: Seq<usize>, demands: Seq<usize>) -> int
    decreases route.len(),
{
    if route.len() == 0 {
        0
    } else {
        route_demand(route.drop_last(), demands) + demand_of(demands, route.last() as int)
    }
}

/// No route asks for more than a vehicle holds.
pub open spec fn respects_capacity(routes: Seq<Seq<usize>>, demands: Seq<usize>, capacity: int) -> bool {
    forall|k: int| 0 <= k < routes.len() ==> route_demand(#[trigger] routes[k], demands) <= capacity
}

/// Some route holds the node `c`.
pub open spec fn is_on_a_route(routes: Seq<Seq<usize>>, c: int) -> bool {
    exists|k: int, p: int|
        0 <= k < routes.len() && 0 <= p < routes[k].len() && #[trigger] routes[k][p] == c
}

/// The routes hold customers only (nodes from 1 to `n - 1`), each customer
/// is on a route, and none is there twice.
pub open spec fn covers_customers_once(routes: Seq<Seq<usize>>, n: int) -> bool {
    &&& forall|k: int, p: int|
        0 <= k < routes.len() && 0 <= p < routes[k].len() ==> 1 <= #[trigger] routes[k][p] < n
    &&& forall|c: int| 1 <= c < n ==> #[trigger] is_on_a_route(routes, c)
    &&& forall|k: int, p: int, l: int, q: int|
        0 <= k < routes.len() && 0 <= p < routes[k].len() && 0 <= l < routes.len() && 0 <= q
            < routes[l].len() && #[trigger] routes[k][p] == #[trigger] routes[l][q] ==> k == l
            && p == q
}

/// No customer asks for more than a vehicle holds.
pub open spec fn demands_fit(demands: Seq<usize>, capacity: int, n: int) -> bool {
    forall|c: int| 1 <= c < n ==> #[trigger] demands[c] <= capacity
}

/// No route is empty.
pub open spec fn no_route_is_empty(routes: Seq<Seq<usize>>) -> bool {
    forall|k: int| 0 <= k < routes.len() ==> (#[trigger] routes[k]).len() > 0
}

/// Some place of `order` holds the node `c`.
pub open spec fn is_in_order(order: Seq<usize>, c: int) -> bool {
    exists|t: int| 0 <= t < order.len() && #[trigger] order[t] == c
}

/// `order` holds each customer (the nodes from 1 to `n - 1`) once, and
/// nothing else.
pub open spec fn is_customer_order(order: Seq<usize>, n: int) -> bool {
    &&& forall|t: int| 0 <= t < order.len() ==> 1 <= #[trigger] order[t] < n
    &&& forall|t: int, u: int|
        0 <= t < u < order.len() ==> #[trigger] order[t] != #[trigger] order[u]
    &&& forall|c: int| 1 <= c < n ==> #[trigger] is_in_order(order, c)
}

/// The number of customers of an instance with `n` nodes.
pub open spec fn customer_count(n: int) -> nat {
    if n > 0 {
        (n - 1) as nat
    } else {
        0
    }
}

/// Where place `t` of `order` holds the customer `from[t] + 1`, and `from`
/// and `to` undo each other, `order` is an order of the customers.
pub proof fn lemma_renumbered_customers(order: Seq<usize>, n: int, from: Seq<int>, to: Seq<int>)
    requires
        order.len() == customer_count(n),
        from.len() == order.len(),
        to.len() == order.len(),
        forall|t: int|
            0 <= t < order.len() ==> 0 <= #[trigger] from[t] < order.len() && to[from[t]] == t
                && order[t] == from[t] + 1,
        forall|c: int| 0 <= c < order.len() ==> 0 <= #[trigger] to[c] < order.len() && from[to[c]] == c,
    ensures
        is_customer_order(order, n),
{
    assert forall|t: int, u: int| 0 <= t < u < order.len() implies #[trigger] order[t]
        != #[trigger] order[u] by {
        assert(to[from[t]] == t);
        assert(to[from[u]] == u);
    }
    assert forall|c: int| 1 <= c < n implies #[trigger] is_in_order(order, c) by {
        let t = to[c - 1];
        assert(from[t] == c - 1);
        assert(order[t] == c);
    }
    assert forall|t: int| 0 <= t < order.len() implies 1 <= #[trigger] order[t] < n by {
        assert(0 <= from[t] < order.len());
    }
}

/// The routes hold each customer once, and nothing else, just where the
/// routes, one after the other, are an order of the customers.
pub proof fn lemma_cover_is_order(routes: Seq<Seq<usize>>, n: int)
    ensures
        covers_customers_once(routes, n) <==> is_customer_order(joined(routes), n),
{
    let whole = joined(routes);
    if covers_customers_once(routes, n) {
        assert forall|t: int| 0 <= t < whole.len() implies 1 <= #[trigger] whole[t] < n by {
            lemma_part_of(routes, t);
            let (k, p) = part_of(routes, t);
            assert(1 <= routes[k][p] < n);
        }
        assert forall|t: int, u: int| 0 <= t < u < whole.len() implies #[trigger] whole[t]
            != #[trigger] whole[u] by {
            lemma_part_of(routes, t);
            lemma_part_of(routes, u);
            let (k, p) = part_of(routes, t);
            let (l, q) = part_of(routes, u);
            if routes[k][p] == routes[l][q] {
                assert(k == l && p == q);
            }
        }
        assert forall|c: int| 1 <= c < n implies #[trigger] is_in_order(whole, c) by {
            assert(is_on_a_route(routes, c));
            let (k, p) = choose|k: int, p: int|
                0 <= k < routes.len() && 0 <= p < routes[k].len() && #[trigger] routes[k][p] == c;
            lemma_part_entry(routes, k, p);
            assert(whole[part_start(routes, k) + p] == c);
        }
    }
    if is_customer_order(whole, n) {
        assert forall|k: int, p: int|
            0 <= k < routes.len() && 0 <= p < routes[k].len() implies 1 <= #[trigger] routes[k][p]
            < n by {
            lemma_part_entry(routes, k, p);
            assert(1 <= whole[part_start(routes, k) + p] < n);
        }
        assert forall|c: int| 1 <= c < n implies #[trigger] is_on_a_route(routes, c) by {
            assert(is_in_order(whole, c));
            let t = choose|t: int| 0 <= t < whole.len() && #[trigger] whole[t] == c;
            lemma_part_of(routes, t);
            let (k, p) = part_of(routes, t);
            assert(routes[k][p] == c);
        }
        assert forall|k: int, p: int, l: int, q: int|
            0 <= k < routes.len() && 0 <= p < routes[k].len() && 0 <= l < routes.len() && 0 <= q
                < routes[l].len() && #[trigger] routes[k][p] == #[trigger] routes[l][q] implies k
            == l && p == q by {
            lemma_part_entry(routes, k, p);
            lemma_part_entry(routes, l, q);
            let t = part_start(routes, k) + p;
            let u = part_start(routes, l) + q;
            if t < u {
                assert(whole[t] != whole[u]);
            } else if u < t {
                assert(whole[u] != whole[t]);
            }
            if k < l {
                lemma_part_starts_grow(routes, k, l);
            } else if l < k {
                lemma_part_starts_grow(routes, l, k);
            }
        }
    }
}

} // verus!
