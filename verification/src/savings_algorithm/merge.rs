//! The routes while savings are taken: one route for each customer at the
//! start, and two routes joined end to end for each saving that is taken.
//!
//! The routes are held by number. Route `r` is at first the customer `r`
//! alone; when two routes are joined, the first keeps its number and the
//! second is left empty.

use vstd::prelude::*;
use crate::algorithm_interface::{
    covers_customers_once, demand_of, demands_fit, is_on_a_route, lemma_cover_is_order,
    no_route_is_empty, respects_capacity, route_demand,
};
use crate::model::joined::joined;
use crate::savings_algorithm::ordering::Saving;

verus! {

/// The routes by number, and for each node the number of its route.
pub struct MergeState {
    /// The routes; those that were joined to another are empty.
    pub routes: Seq<Seq<usize>>,
    /// For each node the number of the route that it is on.
    pub route_of: Seq<usize>,
}

/// The route backwards.
pub open spec fn reversed(route: Seq<usize>) -> Seq<usize> {
    Seq::new(route.len(), |k: int| route[route.len() - 1 - k])
}

/// `node` is the first or the last of the route.
pub open spec fn is_end(route: Seq<usize>, node: usize) -> bool {
    route.len() > 0 && (route.first() == node || route.last() == node)
}

/// The route turned so that `node`, one of its ends, is the last.
pub open spec fn ending_with(route: Seq<usize>, node: usize) -> Seq<usize> {
    if route.last() == node {
        route
    } else {
        reversed(route)
    }
}

/// The route turned so that `node`, one of its ends, is the first.
pub open spec fn starting_with(route: Seq<usize>, node: usize) -> Seq<usize> {
    if route.first() == node {
        route
    } else {
        reversed(route)
    }
}

/// The start: each customer alone on the route of its own number.
pub open spec fn initial_state(n: int) -> MergeState {
    MergeState {
        routes: Seq::new(
            n as nat,
            |r: int|
                if r == 0 {
                    Seq::empty()
                } else {
                    seq![r as usize]
                },
        ),
        route_of: Seq::new(n as nat, |c: int| c as usize),
    }
}

/// The saving of the customers `i` and `j` can be taken: they are on
/// different routes, each is an end of its route, and the two routes together
/// ask for no more than a vehicle holds.
pub open spec fn can_merge(
    st: MergeState,
    demands: Seq<usize>,
    capacity: int,
    i: usize,
    j: usize,
) -> bool {
    let n = st.routes.len();
    &&& 1 <= i < n
    &&& 1 <= j < n
    &&& st.route_of[i as int] != st.route_of[j as int]
    &&& is_end(st.routes[st.route_of[i as int] as int], i)
    &&& is_end(st.routes[st.route_of[j as int] as int], j)
    &&& route_demand(st.routes[st.route_of[i as int] as int], demands) + route_demand(
        st.routes[st.route_of[j as int] as int],
        demands,
    ) <= capacity
}

/// The routes of `i` and `j` joined so that `i` and `j` are neighbours: the
/// route of `i`, turned to end with `i`, and behind it the route of `j`,
/// turned to start with `j`. It keeps the number of the route of `i`.
pub open spec fn merge(st: MergeState, i: usize, j: usize) -> MergeState {
    let ri = st.route_of[i as int];
    let rj = st.route_of[j as int];
    let joined = ending_with(st.routes[ri as int], i) + starting_with(st.routes[rj as int], j);
    MergeState {
        routes: st.routes.update(ri as int, joined).update(rj as int, Seq::empty()),
        route_of: Seq::new(
            st.route_of.len(),
            |c: int|
                if st.route_of[c] == rj {
                    ri
                } else {
                    st.route_of[c]
                },
        ),
    }
}

/// The routes after one saving: joined where the saving can be taken, and
/// unchanged where it cannot.
pub open spec fn step(st: MergeState, demands: Seq<usize>, capacity: int, s: Saving) -> MergeState {
    if can_merge(st, demands, capacity, s.0, s.1) {
        merge(st, s.0, s.1)
    } else {
        st
    }
}

/// The routes after the first `k` savings of `order`, taken one by one.
pub open spec fn after(
    st: MergeState,
    demands: Seq<usize>,
    capacity: int,
    order: Seq<Saving>,
    k: int,
) -> MergeState
    decreases k,
{
    if k <= 0 {
        st
    } else {
        step(after(st, demands, capacity, order, k - 1), demands, capacity, order[k - 1])
    }
}

/// The routes that are not empty, in their order.
pub open spec fn non_empty_routes(routes: Seq<Seq<usize>>) -> Seq<Seq<usize>>
    decreases routes.len(),
{
    if routes.len() == 0 {
        Seq::empty()
    } else if routes.last().len() == 0 {
        non_empty_routes(routes.drop_last())
    } else {
        non_empty_routes(routes.drop_last()).push(routes.last())
    }
}

/// The state is sound, with `pos` the place of each customer on its route:
/// each customer is on the route that `route_of` names, at the place that
/// `pos` names; each entry of a route is a customer that knows its route and
/// place; and the depot is on no route.
pub open spec fn is_sound(st: MergeState, pos: Seq<int>, n: int) -> bool {
    &&& st.routes.len() == n
    &&& st.route_of.len() == n
    &&& pos.len() == n
    &&& n > 0 ==> st.route_of[0] == 0
    &&& forall|c: int|
        1 <= c < n ==> {
            &&& 1 <= #[trigger] st.route_of[c] < n
            &&& 0 <= pos[c] < st.routes[st.route_of[c] as int].len()
            &&& st.routes[st.route_of[c] as int][pos[c]] == c
        }
    &&& forall|r: int, p: int|
        0 <= r < n && 0 <= p < st.routes[r].len() ==> {
            &&& 1 <= #[trigger] st.routes[r][p] < n
            &&& st.route_of[st.routes[r][p] as int] == r
            &&& pos[st.routes[r][p] as int] == p
        }
}

/// The place of each customer at the start.
pub open spec fn initial_pos(n: int) -> Seq<int> {
    Seq::new(n as nat, |c: int| 0int)
}

/// The place of each customer after the routes of `i` and `j` were joined.
pub open spec fn merged_pos(st: MergeState, pos: Seq<int>, i: usize, j: usize) -> Seq<int> {
    let ri = st.route_of[i as int];
    let rj = st.route_of[j as int];
    let a = st.routes[ri as int];
    let b = st.routes[rj as int];
    Seq::new(
        pos.len(),
        |c: int|
            if st.route_of[c] == ri {
                if a.last() == i {
                    pos[c]
                } else {
                    a.len() - 1 - pos[c]
                }
            } else if st.route_of[c] == rj {
                if b.first() == j {
                    a.len() + pos[c]
                } else {
                    a.len() + b.len() - 1 - pos[c]
                }
            } else {
                pos[c]
            },
    )
}

/// The start is sound.
pub proof fn lemma_initial_is_sound(n: int)
    requires
        0 <= n <= usize::MAX,
    ensures
        is_sound(initial_state(n), initial_pos(n), n),
{
}

/// Joining two routes of a sound state gives a sound state.
pub proof fn lemma_merge_is_sound(st: MergeState, pos: Seq<int>, n: int, i: usize, j: usize)
    requires
        is_sound(st, pos, n),
        1 <= i < n,
        1 <= j < n,
        st.route_of[i as int] != st.route_of[j as int],
    ensures
        is_sound(merge(st, i, j), merged_pos(st, pos, i, j), n),
{
    let ri = st.route_of[i as int] as int;
    let rj = st.route_of[j as int] as int;
    let a = st.routes[ri];
    let b = st.routes[rj];
    let a2 = ending_with(a, i);
    let b2 = starting_with(b, j);
    let joined = a2 + b2;
    let next = merge(st, i, j);
    let next_pos = merged_pos(st, pos, i, j);
    assert(a2.len() == a.len() && b2.len() == b.len());
    assert(next.routes[ri] == joined);
    assert(next.routes[rj].len() == 0);
    assert forall|c: int| 1 <= c < n implies {
        &&& 1 <= #[trigger] next.route_of[c] < n
        &&& 0 <= next_pos[c] < next.routes[next.route_of[c] as int].len()
        &&& next.routes[next.route_of[c] as int][next_pos[c]] == c
    } by {
        let r = st.route_of[c] as int;
        assert(st.routes[r][pos[c]] == c);
        if r == ri {
        } else if r == rj {
            assert(joined[next_pos[c]] == b2[next_pos[c] - a.len()]);
        } else {
            assert(next.routes[r] == st.routes[r]);
        }
    }
    assert forall|r: int, p: int| 0 <= r < n && 0 <= p < next.routes[r].len() implies {
        &&& 1 <= #[trigger] next.routes[r][p] < n
        &&& next.route_of[next.routes[r][p] as int] == r
        &&& next_pos[next.routes[r][p] as int] == p
    } by {
        if r == ri {
            if p < a.len() {
                let q = if a.last() == i { p } else { a.len() - 1 - p };
                assert(joined[p] == a2[p]);
                assert(a2[p] == a[q]);
                assert(st.routes[ri][q] == a[q]);
            } else {
                let q = if b.first() == j { p - a.len() } else { a.len() + b.len() - 1 - p };
                assert(joined[p] == b2[p - a.len()]);
                assert(b2[p - a.len()] == b[q]);
                assert(st.routes[rj][q] == b[q]);
            }
        } else {
            assert(next.routes[r] == st.routes[r]);
            assert(st.routes[r][p] == next.routes[r][p]);
        }
    }
}

/// The routes that are not empty, one after the other, are all routes, one
/// after the other.
pub proof fn lemma_non_empty_join(routes: Seq<Seq<usize>>)
    ensures
        joined(non_empty_routes(routes)) == joined(routes),
    decreases routes.len(),
{
    if routes.len() > 0 {
        lemma_non_empty_join(routes.drop_last());
        if routes.last().len() == 0 {
            assert(joined(routes.drop_last()) + routes.last() =~= joined(
                routes.drop_last(),
            ));
        } else {
            let kept = non_empty_routes(routes.drop_last()).push(routes.last());
            assert(kept.drop_last() =~= non_empty_routes(routes.drop_last()));
        }
    }
}

/// Each of the routes that are not empty is not empty, and is one of the
/// routes.
pub proof fn lemma_non_empty_are_routes(routes: Seq<Seq<usize>>)
    ensures
        forall|k: int|
            0 <= k < non_empty_routes(routes).len() ==> (#[trigger] non_empty_routes(
                routes,
            )[k]).len() > 0 && exists|r: int|
                0 <= r < routes.len() && #[trigger] routes[r] == non_empty_routes(routes)[k],
    decreases routes.len(),
{
    let kept = non_empty_routes(routes);
    if routes.len() > 0 {
        let head = routes.drop_last();
        lemma_non_empty_are_routes(head);
        let before = non_empty_routes(head);
        assert forall|k: int| 0 <= k < kept.len() implies (#[trigger] kept[k]).len() > 0
            && exists|r: int| 0 <= r < routes.len() && #[trigger] routes[r] == kept[k] by {
            if k < before.len() {
                assert(kept[k] == before[k]);
                let r = choose|r: int| 0 <= r < head.len() && #[trigger] head[r] == before[k];
                assert(routes[r] == kept[k]);
            } else {
                assert(routes[routes.len() - 1] == kept[k]);
            }
        }
    }
}

/// In a sound state whose routes are within the capacity, the routes that
/// are not empty are within the capacity, and hold each customer once.
pub proof fn lemma_sound_routes_cover(
    st: MergeState,
    pos: Seq<int>,
    n: int,
    demands: Seq<usize>,
    capacity: int,
)
    requires
        is_sound(st, pos, n),
        forall|r: int| 0 <= r < n ==> route_demand(#[trigger] st.routes[r], demands) <= capacity,
    ensures
        respects_capacity(non_empty_routes(st.routes), demands, capacity),
        covers_customers_once(non_empty_routes(st.routes), n),
        no_route_is_empty(non_empty_routes(st.routes)),
{
    let all = st.routes;
    let kept = non_empty_routes(all);
    assert(covers_customers_once(all, n)) by {
        assert forall|c: int| 1 <= c < n implies #[trigger] is_on_a_route(all, c) by {
            assert(all[st.route_of[c] as int][pos[c]] == c);
        }
    }
    lemma_cover_is_order(all, n);
    lemma_non_empty_join(all);
    lemma_cover_is_order(kept, n);
    lemma_non_empty_are_routes(all);
    assert forall|k: int| 0 <= k < kept.len() implies route_demand(#[trigger] kept[k], demands)
        <= capacity by {
        let r = choose|r: int| 0 <= r < all.len() && #[trigger] all[r] == kept[k];
        assert(route_demand(all[r], demands) <= capacity);
    }
}

/// Each route of the state asks for no more than a vehicle holds.
pub open spec fn loads_fit(st: MergeState, demands: Seq<usize>, capacity: int) -> bool {
    forall|r: int|
        0 <= r < st.routes.len() ==> route_demand(#[trigger] st.routes[r], demands) <= capacity
}

/// After any number of savings the state is sound, and its routes are
/// within the capacity. The result is the place of each customer on its
/// route.
pub proof fn lemma_after_is_sound(
    demands: Seq<usize>,
    capacity: int,
    order: Seq<Saving>,
    n: int,
    k: int,
) -> (pos: Seq<int>)
    requires
        0 <= n <= usize::MAX,
        n <= demands.len(),
        demands_fit(demands, capacity, n),
        0 <= capacity,
        0 <= k <= order.len(),
    ensures
        is_sound(after(initial_state(n), demands, capacity, order, k), pos, n),
        loads_fit(after(initial_state(n), demands, capacity, order, k), demands, capacity),
    decreases k,
{
    if k == 0 {
        lemma_initial_is_sound(n);
        let st = initial_state(n);
        assert forall|r: int| 0 <= r < st.routes.len() implies route_demand(
            #[trigger] st.routes[r],
            demands,
        ) <= capacity by {
            if r > 0 {
                let one = st.routes[r];
                assert(one.drop_last() =~= Seq::<usize>::empty());
                assert(route_demand(one.drop_last(), demands) == 0);
                assert(demands[r] <= capacity);
            }
        }
        initial_pos(n)
    } else {
        let pos = lemma_after_is_sound(demands, capacity, order, n, k - 1);
        let st = after(initial_state(n), demands, capacity, order, k - 1);
        let (i, j) = (order[k - 1].0, order[k - 1].1);
        if can_merge(st, demands, capacity, i, j) {
            lemma_merge_is_sound(st, pos, n, i, j);
            let ri = st.route_of[i as int] as int;
            let rj = st.route_of[j as int] as int;
            lemma_joined_demand(st.routes[ri], st.routes[rj], i, j, demands);
            let next = merge(st, i, j);
            assert forall|r: int| 0 <= r < next.routes.len() implies route_demand(
                #[trigger] next.routes[r],
                demands,
            ) <= capacity by {
                if r != ri && r != rj {
                    assert(next.routes[r] == st.routes[r]);
                }
            }
            merged_pos(st, pos, i, j)
        } else {
            pos
        }
    }
}

/// On the joined route the two customers are neighbours: `i` stands at the
/// end of what was its route, and `j` behind it.
pub proof fn lemma_joined_are_neighbours(a: Seq<usize>, b: Seq<usize>, i: usize, j: usize)
    requires
        is_end(a, i),
        is_end(b, j),
    ensures
        (ending_with(a, i) + starting_with(b, j))[a.len() - 1] == i,
        (ending_with(a, i) + starting_with(b, j))[a.len() as int] == j,
        (ending_with(a, i) + starting_with(b, j)).len() == a.len() + b.len(),
{
    assert(ending_with(a, i).len() == a.len());
    assert(ending_with(a, i)[a.len() - 1] == i);
    assert(starting_with(b, j)[0] == j);
}

/// The demand of two routes, one behind the other, is the sum of their
/// demands.
pub proof fn lemma_route_demand_concat(a: Seq<usize>, b: Seq<usize>, demands: Seq<usize>)
    ensures
        route_demand(a + b, demands) == route_demand(a, demands) + route_demand(b, demands),
    decreases b.len(),
{
    if b.len() == 0 {
        assert(a + b =~= a);
    } else {
        lemma_route_demand_concat(a, b.drop_last(), demands);
        assert((a + b).drop_last() =~= a + b.drop_last());
        assert((a + b).last() == b.last());
    }
}

/// A route backwards asks for as much as the route.
pub proof fn lemma_route_demand_reversed(a: Seq<usize>, demands: Seq<usize>)
    ensures
        route_demand(reversed(a), demands) == route_demand(a, demands),
    decreases a.len(),
{
    if a.len() == 0 {
        assert(reversed(a) =~= a);
    } else {
        let head = seq![a.last()];
        lemma_route_demand_reversed(a.drop_last(), demands);
        lemma_route_demand_concat(head, reversed(a.drop_last()), demands);
        assert(reversed(a) =~= head + reversed(a.drop_last()));
        assert(head.drop_last() =~= Seq::<usize>::empty());
        assert(route_demand(head.drop_last(), demands) == 0);
        assert(route_demand(head, demands) == demand_of(demands, a.last() as int));
    }
}

/// The joined route asks for as much as the two routes together.
pub proof fn lemma_joined_demand(a: Seq<usize>, b: Seq<usize>, i: usize, j: usize, demands: Seq<usize>)
    ensures
        route_demand(ending_with(a, i) + starting_with(b, j), demands) == route_demand(a, demands)
            + route_demand(b, demands),
{
    lemma_route_demand_concat(ending_with(a, i), starting_with(b, j), demands);
    lemma_route_demand_reversed(a, demands);
    lemma_route_demand_reversed(b, demands);
}

} // verus!
