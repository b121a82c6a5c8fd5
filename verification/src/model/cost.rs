//! The cost of a set of routes: each route starts at the depot, visits its
//! customers in turn, and ends at the depot.

use vstd::prelude::*;
use crate::algorithm_interface::{routes_view, SolveError};
use crate::model::source::{DistanceSource, SourceModel};

verus! {

/// The lengths of the legs of a route: from the depot to the first customer,
/// from each customer to the next, and from the last back to the depot. A
/// route without customers has no legs.
pub open spec fn route_legs(src: SourceModel, route: Seq<usize>) -> Seq<int> {
    if route.len() == 0 {
        Seq::empty()
    } else {
        Seq::new(
            route.len() + 1,
            |k: int|
                src.distance(
                    if k == 0 {
                        0
                    } else {
                        route[k - 1] as int
                    },
                    if k == route.len() {
                        0
                    } else {
                        route[k] as int
                    },
                ),
        )
    }
}

/// The legs of all routes, route by route.
pub open spec fn all_legs(src: SourceModel, routes: Seq<Seq<usize>>) -> Seq<int>
    decreases routes.len(),
{
    if routes.len() == 0 {
        Seq::empty()
    } else {
        all_legs(src, routes.drop_last()) + route_legs(src, routes.last())
    }
}

/// The sum of the numbers of a sequence.
pub open spec fn sum_of(numbers: Seq<int>) -> int
    decreases numbers.len(),
{
    if numbers.len() == 0 {
        0
    } else {
        sum_of(numbers.drop_last()) + numbers.last()
    }
}

/// The cost of a route: the sum of the lengths of its legs.
pub open spec fn route_cost(src: SourceModel, route: Seq<usize>) -> int {
    sum_of(route_legs(src, route))
}

/// The cost of the routes: the sum of the lengths of all their legs.
pub open spec fn total_cost(src: SourceModel, routes: Seq<Seq<usize>>) -> int {
    sum_of(all_legs(src, routes))
}

/// Every entry of every route is a node of the instance.
pub open spec fn names_nodes_only(routes: Seq<Seq<usize>>, n: int) -> bool {
    forall|r: int, p: int|
        0 <= r < routes.len() && 0 <= p < routes[r].len() ==> #[trigger] routes[r][p] < n
}

/// The cost of the routes, or why there is none: a route names something
/// that is no node, or the cost is larger than the largest number.
pub open spec fn cost_solution(src: SourceModel, routes: Seq<Seq<usize>>) -> Result<
    usize,
    SolveError,
> {
    if !names_nodes_only(routes, src.node_count()) {
        Err(SolveError::InvalidNodes)
    } else if total_cost(src, routes) > usize::MAX {
        Err(SolveError::Overflow)
    } else {
        Ok(total_cost(src, routes) as usize)
    }
}

/// The numbers of a sequence as whole numbers without bound.
pub open spec fn as_ints(numbers: Seq<usize>) -> Seq<int> {
    Seq::new(numbers.len(), |k: int| numbers[k] as int)
}

/// The sum of a sequence with one more number is the sum of the sequence and
/// that number.
pub proof fn lemma_sum_push(numbers: Seq<int>, x: int)
    ensures
        sum_of(numbers.push(x)) == sum_of(numbers) + x,
{
    assert(numbers.push(x).drop_last() =~= numbers);
}

/// The sum of two sequences, one behind the other, is the sum of their
/// sums.
pub proof fn lemma_sum_concat(a: Seq<int>, b: Seq<int>)
    ensures
        sum_of(a + b) == sum_of(a) + sum_of(b),
    decreases b.len(),
{
    if b.len() == 0 {
        assert(a + b =~= a);
    } else {
        lemma_sum_concat(a, b.drop_last());
        assert((a + b).drop_last() =~= a + b.drop_last());
        assert((a + b).last() == b.last());
    }
}

/// The cost of the routes is the cost of all but the last of them and the
/// cost of the last.
pub proof fn lemma_total_cost_by_route(src: SourceModel, routes: Seq<Seq<usize>>)
    requires
        routes.len() > 0,
    ensures
        total_cost(src, routes) == total_cost(src, routes.drop_last()) + route_cost(
            src,
            routes.last(),
        ),
{
    lemma_sum_concat(all_legs(src, routes.drop_last()), route_legs(src, routes.last()));
}

/// The sum of the first numbers of a sequence of numbers that are not
/// negative is at most the sum of all.
pub proof fn lemma_sum_grows(numbers: Seq<usize>, k: int)
    requires
        0 <= k <= numbers.len(),
    ensures
        0 <= sum_of(as_ints(numbers).take(k)) <= sum_of(as_ints(numbers)),
    decreases numbers.len() - k,
{
    let ints = as_ints(numbers);
    if k == numbers.len() {
        assert(ints.take(k) =~= ints);
        lemma_sum_not_negative(numbers);
    } else {
        lemma_sum_grows(numbers, k + 1);
        assert(ints.take(k + 1).drop_last() =~= ints.take(k));
        lemma_sum_not_negative(numbers.take(k));
        assert(as_ints(numbers.take(k)) =~= ints.take(k));
    }
}

/// A sum of numbers that are not negative is not negative.
pub proof fn lemma_sum_not_negative(numbers: Seq<usize>)
    ensures
        0 <= sum_of(as_ints(numbers)),
    decreases numbers.len(),
{
    if numbers.len() > 0 {
        lemma_sum_not_negative(numbers.drop_last());
        assert(as_ints(numbers).drop_last() =~= as_ints(numbers.drop_last()));
    }
}

/// The cost of the routes.
pub fn cost_of_routes(source: &DistanceSource, routes: &Vec<Vec<usize>>) -> (cost: Result<
    usize,
    SolveError,
>)
    requires
        source@.is_well_formed(),
    ensures
        cost == cost_solution(source@, routes_view(routes)),
{
    let n = source.node_count();
    let ghost all = routes_view(routes);
    // The routes must name nodes only.
    let mut r: usize = 0;
    while r < routes.len()
        invariant
            r <= routes.len(),
            all == routes_view(routes),
            n == source@.node_count(),
            forall|q: int, p: int|
                0 <= q < r && 0 <= p < all[q].len() ==> #[trigger] all[q][p] < n,
        decreases routes.len() - r,
    {
        let route = &routes[r];
        assert(all[r as int] == route@);
        let mut p: usize = 0;
        while p < route.len()
            invariant
                p <= route.len(),
                r < routes.len(),
                all == routes_view(routes),
                all[r as int] == route@,
                n == source@.node_count(),
                forall|t: int| 0 <= t < p ==> #[trigger] route@[t] < n,
            decreases route.len() - p,
        {
            if route[p] >= n {
                proof {
                    assert(!(all[r as int][p as int] < n));
                }
                return Err(SolveError::InvalidNodes);
            }
            p += 1;
        }
        r += 1;
    }
    assert(names_nodes_only(all, n as int));
    // The lengths of the legs.
    let mut legs: Vec<usize> = Vec::new();
    let mut r: usize = 0;
    proof {
        assert(all.take(0) =~= Seq::<Seq<usize>>::empty());
        assert(as_ints(legs@) =~= all_legs(source@, all.take(0)));
    }
    while r < routes.len()
        invariant
            r <= routes.len(),
            all == routes_view(routes),
            n == source@.node_count(),
            source@.is_well_formed(),
            names_nodes_only(all, n as int),
            as_ints(legs@) == all_legs(source@, all.take(r as int)),
        decreases routes.len() - r,
    {
        let route = &routes[r];
        let len = route.len();
        let ghost before = legs@;
        proof {
            assert(all[r as int] == route@);
            assert(all.take(r + 1).drop_last() =~= all.take(r as int));
            assert(all.take(r + 1).last() == route@);
            assert forall|t: int| 0 <= t < len implies #[trigger] route@[t] < n by {
                assert(all[r as int][t] < n);
            }
        }
        if len > 0 {
            let mut k: usize = 0;
            while k < len
                invariant
                    k <= len,
                    0 < len == route@.len(),
                    n == source@.node_count(),
                    source@.is_well_formed(),
                    forall|t: int| 0 <= t < len ==> #[trigger] route@[t] < n,
                    legs@.len() == before.len() + k,
                    forall|t: int| 0 <= t < before.len() ==> #[trigger] legs@[t] == before[t],
                    forall|t: int|
                        0 <= t < k ==> (#[trigger] legs@[before.len() + t]) as int == route_legs(
                            source@,
                            route@,
                        )[t],
                decreases len - k,
            {
                let from = if k == 0 { 0 } else { route[k - 1] };
                assert(route@[0] < n);
                let d = source.distance(from, route[k]);
                legs.push(d);
                k += 1;
            }
            assert(route@[0] < n);
            let back = source.distance(route[len - 1], 0);
            legs.push(back);
            proof {
                let want = as_ints(before) + route_legs(source@, route@);
                assert(legs@.len() == want.len());
                assert forall|t: int| 0 <= t < want.len() implies as_ints(legs@)[t] == want[t] by {
                    if t < before.len() {
                        assert(legs@[t] == before[t]);
                    } else {
                        assert(legs@[before.len() + (t - before.len())] == legs@[t]);
                    }
                }
                assert(as_ints(legs@) =~= want);
            }
        } else {
            proof {
                assert(as_ints(legs@) =~= as_ints(before) + route_legs(source@, route@));
            }
        }
        r += 1;
    }
    proof {
        assert(all.take(routes.len() as int) =~= all);
    }
    // Their sum.
    let mut total: usize = 0;
    let mut k: usize = 0;
    proof {
        assert(as_ints(legs@).take(0) =~= Seq::<int>::empty());
    }
    while k < legs.len()
        invariant
            k <= legs.len(),
            total == sum_of(as_ints(legs@).take(k as int)),
            all == routes_view(routes),
            as_ints(legs@) == all_legs(source@, all),
            names_nodes_only(all, source@.node_count()),
        decreases legs.len() - k,
    {
        proof {
            lemma_sum_grows(legs@, k + 1);
            assert(as_ints(legs@).take(k + 1) =~= as_ints(legs@).take(k as int).push(
                legs@[k as int] as int,
            ));
            lemma_sum_push(as_ints(legs@).take(k as int), legs@[k as int] as int);
        }
        if legs[k] > usize::MAX - total {
            return Err(SolveError::Overflow);
        }
        total += legs[k];
        k += 1;
    }
    proof {
        assert(as_ints(legs@).take(legs.len() as int) =~= as_ints(legs@));
    }
    Ok(total)
}

} // verus!
