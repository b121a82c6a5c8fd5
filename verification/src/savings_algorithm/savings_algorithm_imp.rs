//! The savings heuristic: the savings are taken from the largest down, and
//! each one that can be taken joins two routes.

use vstd::prelude::*;
use crate::algorithm_interface::{
    covers_customers_once, demands_fit, no_route_is_empty, respects_capacity, route_demand,
    routes_result_view, routes_view, CVRPSolver, SolveError,
};
use crate::savings_algorithm::savings_instance_trait::SavingsInstanceTrait;
use crate::savings_algorithm::merge::{
    after, can_merge, ending_with, initial_state, is_sound, lemma_after_is_sound,
    lemma_joined_demand, lemma_sound_routes_cover, merge, non_empty_routes, reversed,
    starting_with, step, MergeState,
};
use crate::savings_algorithm::ordering::{sort_savings, sort_savings_descending, Saving};

verus! {

/// The routes of the savings heuristic for `n` nodes: the savings are sorted,
/// taken one by one from the state in which each customer is alone, and the
/// routes that are left are the result. There are no routes where the demand
/// table is too short or a customer asks for more than a vehicle holds.
pub open spec fn savings_solution(
    savings: Seq<Saving>,
    demands: Seq<usize>,
    capacity: usize,
    n: int,
) -> Result<Seq<Seq<usize>>, SolveError> {
    if demands.len() < n {
        Err(SolveError::MissingDemand)
    } else if !demands_fit(demands, capacity as int, n) {
        Err(SolveError::DemandExceedsCapacity)
    } else {
        let order = sort_savings(savings);
        Ok(
            non_empty_routes(
                after(initial_state(n), demands, capacity as int, order, order.len() as int).routes,
            ),
        )
    }
}

/// The routes of the savings heuristic are within the capacity, hold each
/// customer once, and are not empty.
pub proof fn lemma_savings_routes_are_partition(
    savings: Seq<Saving>,
    demands: Seq<usize>,
    capacity: usize,
    n: int,
)
    requires
        0 <= n <= usize::MAX,
    ensures
        savings_solution(savings, demands, capacity, n) matches Ok(routes) ==> {
            &&& respects_capacity(routes, demands, capacity as int)
            &&& covers_customers_once(routes, n)
            &&& no_route_is_empty(routes)
        },
{
    if savings_solution(savings, demands, capacity, n) is Ok {
        let order = sort_savings(savings);
        let pos = lemma_after_is_sound(demands, capacity as int, order, n, order.len() as int);
        let st = after(initial_state(n), demands, capacity as int, order, order.len() as int);
        lemma_sound_routes_cover(st, pos, n, demands, capacity as int);
    }
}

/// Puts the entries of `src` behind those of `dst`.
pub fn append_forward(dst: &mut Vec<usize>, src: &Vec<usize>)
    ensures
        final(dst)@ == old(dst)@ + src@,
{
    let ghost before = dst@;
    let mut p: usize = 0;
    while p < src.len()
        invariant
            p <= src.len(),
            dst@ == before + src@.take(p as int),
        decreases src.len() - p,
    {
        dst.push(src[p]);
        proof {
            assert(dst@ =~= before + src@.take(p + 1));
        }
        p += 1;
    }
    proof {
        assert(src@.take(src.len() as int) =~= src@);
    }
}

/// Puts the entries of `src`, the last first, behind those of `dst`.
pub fn append_backward(dst: &mut Vec<usize>, src: &Vec<usize>)
    ensures
        final(dst)@ == old(dst)@ + reversed(src@),
{
    let ghost before = dst@;
    let len = src.len();
    let mut p: usize = 0;
    while p < len
        invariant
            p <= len,
            len == src.len(),
            dst@ == before + reversed(src@).take(p as int),
        decreases len - p,
    {
        dst.push(src[len - 1 - p]);
        proof {
            assert(dst@ =~= before + reversed(src@).take(p + 1));
        }
        p += 1;
    }
    proof {
        assert(reversed(src@).take(len as int) =~= reversed(src@));
    }
}

/// The routes of the savings heuristic. `savings` lists pairs of customers
/// with what each pair saves, `demands` holds the demand of each node, and
/// `node_count` counts the nodes, the depot included. A saving that names
/// something that is no customer is passed over.
pub fn savings_routes(
    savings: &Vec<Saving>,
    demands: &Vec<usize>,
    capacity: usize,
    node_count: usize,
) -> (result: Result<Vec<Vec<usize>>, SolveError>)
    ensures
        routes_result_view(result) == savings_solution(
            savings@,
            demands@,
            capacity,
            node_count as int,
        ),
        result matches Ok(routes) ==> {
            &&& respects_capacity(routes_view(&routes), demands@, capacity as int)
            &&& covers_customers_once(routes_view(&routes), node_count as int)
            &&& no_route_is_empty(routes_view(&routes))
        },
{
    let n = node_count;
    if demands.len() < n {
        return Err(SolveError::MissingDemand);
    }
    let mut c: usize = 1;
    while c < n
        invariant
            1 <= c,
            n == node_count,
            n <= demands.len(),
            forall|d: int| 1 <= d < c && d < n ==> #[trigger] demands@[d] <= capacity,
        decreases n - c,
    {
        if demands[c] > capacity {
            proof {
                assert(!(demands@[c as int] <= capacity));
            }
            return Err(SolveError::DemandExceedsCapacity);
        }
        c += 1;
    }
    assert(demands_fit(demands@, capacity as int, n as int));
    let order = sort_savings_descending(savings);

    // Each customer alone on the route of its number.
    let mut routes: Vec<Vec<usize>> = Vec::new();
    let mut route_of: Vec<usize> = Vec::new();
    let mut load: Vec<usize> = Vec::new();
    let mut r: usize = 0;
    while r < n
        invariant
            r <= n,
            n <= demands.len(),
            routes@.len() == r,
            route_of@.len() == r,
            load@.len() == r,
            forall|q: int|
                0 <= q < r ==> (#[trigger] routes@[q])@ == initial_state(n as int).routes[q],
            forall|q: int| 0 <= q < r ==> #[trigger] route_of@[q] == q,
            forall|q: int|
                0 <= q < r ==> #[trigger] load@[q] == route_demand(
                    initial_state(n as int).routes[q],
                    demands@,
                ),
        decreases n - r,
    {
        let mut single: Vec<usize> = Vec::new();
        let mut asked: usize = 0;
        if r > 0 {
            single.push(r);
            asked = demands[r];
            proof {
                let one = initial_state(n as int).routes[r as int];
                assert(single@ =~= one);
                assert(one.drop_last() =~= Seq::<usize>::empty());
                assert(route_demand(one.drop_last(), demands@) == 0);
            }
        } else {
            proof {
                assert(single@ =~= initial_state(n as int).routes[0]);
            }
        }
        routes.push(single);
        route_of.push(r);
        load.push(asked);
        r += 1;
    }
    proof {
        assert(routes_view(&routes) =~= initial_state(n as int).routes);
        assert(route_of@ =~= initial_state(n as int).route_of);
    }

    let mut k: usize = 0;
    while k < order.len()
        invariant
            k <= order.len(),
            n <= demands.len(),
            routes@.len() == n,
            route_of@.len() == n,
            load@.len() == n,
            demands_fit(demands@, capacity as int, n as int),
            (MergeState { routes: routes_view(&routes), route_of: route_of@ }) == after(
                initial_state(n as int),
                demands@,
                capacity as int,
                order@,
                k as int,
            ),
            forall|q: int|
                0 <= q < n ==> #[trigger] load@[q] == route_demand(routes_view(&routes)[q], demands@),
        decreases order.len() - k,
    {
        let ghost st = MergeState { routes: routes_view(&routes), route_of: route_of@ };
        let ghost mut pos: Seq<int> = Seq::empty();
        proof {
            pos = lemma_after_is_sound(demands@, capacity as int, order@, n as int, k as int);
            assert forall|q: int| 0 <= q < n implies #[trigger] load@[q] <= capacity by {
                assert(route_demand(st.routes[q], demands@) <= capacity);
            }
        }
        let i = order[k].0;
        let j = order[k].1;
        let mut taken = false;
        if 1 <= i && i < n && 1 <= j && j < n {
            let ri = route_of[i];
            let rj = route_of[j];
            if ri != rj {
                proof {
                    assert(st.routes[ri as int] == routes@[ri as int]@);
                    assert(st.routes[rj as int] == routes@[rj as int]@);
                    assert(st.routes[ri as int][pos[i as int]] == i);
                    assert(st.routes[rj as int][pos[j as int]] == j);
                }
                let a_len = routes[ri].len();
                let b_len = routes[rj].len();
                let i_last = routes[ri][a_len - 1] == i;
                let j_first = routes[rj][0] == j;
                let i_is_end = i_last || routes[ri][0] == i;
                let j_is_end = j_first || routes[rj][b_len - 1] == j;
                if i_is_end && j_is_end && load[ri] <= capacity - load[rj] {
                    let mut joined: Vec<usize> = Vec::new();
                    if i_last {
                        append_forward(&mut joined, &routes[ri]);
                    } else {
                        append_backward(&mut joined, &routes[ri]);
                    }
                    if j_first {
                        append_forward(&mut joined, &routes[rj]);
                    } else {
                        append_backward(&mut joined, &routes[rj]);
                    }
                    proof {
                        assert(joined@ =~= ending_with(st.routes[ri as int], i) + starting_with(
                            st.routes[rj as int],
                            j,
                        ));
                    }
                    let mut p: usize = 0;
                    while p < b_len
                        invariant
                            p <= b_len,
                            b_len == routes@[rj as int]@.len(),
                            1 <= rj < n,
                            1 <= ri < n,
                            routes@.len() == n,
                            route_of@.len() == n,
                            st.routes == routes_view(&routes),
                            st.route_of.len() == n,
                            is_sound(st, pos, n as int),
                            forall|c: int|
                                0 <= c < n ==> #[trigger] route_of@[c] == (if st.route_of[c] == rj
                                    && pos[c] < p {
                                    ri
                                } else {
                                    st.route_of[c]
                                }),
                        decreases b_len - p,
                    {
                        proof {
                            assert(st.routes[rj as int] == routes@[rj as int]@);
                            assert(1 <= st.routes[rj as int][p as int] < n);
                        }
                        let node = routes[rj][p];
                        route_of[node] = ri;
                        p += 1;
                    }
                    let total = load[ri] + load[rj];
                    routes[ri] = joined;
                    routes[rj] = Vec::new();
                    load[ri] = total;
                    load[rj] = 0;
                    taken = true;
                    proof {
                        let next = merge(st, i, j);
                        lemma_joined_demand(
                            st.routes[ri as int],
                            st.routes[rj as int],
                            i,
                            j,
                            demands@,
                        );
                        assert(routes_view(&routes) =~= next.routes);
                        assert(route_of@ =~= next.route_of) by {
                            assert forall|c: int| 0 <= c < n implies route_of@[c]
                                == next.route_of[c] by {
                                if st.route_of[c] == rj {
                                    assert(c >= 1);
                                    assert(pos[c] < st.routes[rj as int].len());
                                }
                            }
                        }
                        assert(can_merge(st, demands@, capacity as int, i, j));
                        assert forall|q: int| 0 <= q < n implies #[trigger] load@[q]
                            == route_demand(routes_view(&routes)[q], demands@) by {
                            if q != ri && q != rj {
                                assert(routes_view(&routes)[q] == st.routes[q]);
                            }
                        }
                    }
                }
            }
        }
        proof {
            if !taken {
                assert(!can_merge(st, demands@, capacity as int, i, j)) by {
                    if 1 <= i < n && 1 <= j < n && st.route_of[i as int] != st.route_of[j as int] {
                        let ri = st.route_of[i as int] as int;
                        let rj = st.route_of[j as int] as int;
                        assert(st.routes[ri] == routes@[ri]@);
                        assert(st.routes[rj] == routes@[rj]@);
                        assert(st.routes[ri][pos[i as int]] == i);
                        assert(st.routes[rj][pos[j as int]] == j);
                    }
                }
            }
            assert((MergeState { routes: routes_view(&routes), route_of: route_of@ }) == step(
                st,
                demands@,
                capacity as int,
                order@[k as int],
            ));
        }
        k += 1;
    }

    // The routes that are left.
    let ghost all = routes_view(&routes);
    let mut result: Vec<Vec<usize>> = Vec::new();
    let mut r: usize = 0;
    proof {
        assert(all.take(0) =~= Seq::<Seq<usize>>::empty());
        assert(routes_view(&result) =~= Seq::<Seq<usize>>::empty());
    }
    while r < n
        invariant
            r <= n,
            routes@.len() == n,
            all == routes_view(&routes),
            routes_view(&result) == non_empty_routes(all.take(r as int)),
        decreases n - r,
    {
        proof {
            assert(all.take(r + 1).drop_last() =~= all.take(r as int));
            assert(all.take(r + 1).last() == all[r as int]);
            assert(all[r as int] == routes@[r as int]@);
        }
        if routes[r].len() > 0 {
            let mut copy: Vec<usize> = Vec::new();
            append_forward(&mut copy, &routes[r]);
            let ghost before = routes_view(&result);
            result.push(copy);
            proof {
                assert(routes_view(&result) =~= before.push(all[r as int]));
            }
        }
        r += 1;
    }
    proof {
        assert(all.take(n as int) =~= all);
        lemma_savings_routes_are_partition(savings@, demands@, capacity, n as int);
    }
    Ok(result)
}

/// The nodes are listed by their number: 0, 1, and so on.
pub open spec fn is_node_list(nodes: Seq<usize>) -> bool {
    forall|k: int| 0 <= k < nodes.len() ==> #[trigger] nodes[k] == k
}

/// Whether the nodes are listed by their number.
pub fn check_node_list(nodes: &Vec<usize>) -> (ok: bool)
    ensures
        ok == is_node_list(nodes@),
{
    let mut k: usize = 0;
    while k < nodes.len()
        invariant
            k <= nodes.len(),
            forall|q: int| 0 <= q < k ==> #[trigger] nodes@[q] == q,
        decreases nodes.len() - k,
    {
        if nodes[k] != k {
            return false;
        }
        k += 1;
    }
    true
}

/// The savings heuristic on an instance.
pub struct SavingsSolver<'a> {
    /// The instance to solve.
    pub instance: &'a dyn SavingsInstanceTrait,
}

impl<'a> SavingsSolver<'a> {
    /// Gives the solver another instance to solve.
    pub fn add_instance(&mut self, i: &'a dyn SavingsInstanceTrait)
        ensures
            *final(self) == (SavingsSolver { instance: i }),
    {
        *self = SavingsSolver { instance: i };
    }
}

impl<'a> CVRPSolver for SavingsSolver<'a> {
    /// The routes of the savings heuristic for the savings, the demands and
    /// the capacity of the instance. There are none where the nodes of the
    /// instance are not listed by their number, and where the instance has
    /// no savings.
    open spec fn solution(&self) -> Result<Seq<Seq<usize>>, SolveError> {
        if !is_node_list(self.instance.nodes_list()) {
            Err(SolveError::Malformed)
        } else {
            match self.instance.savings() {
                Err(e) => Err(e),
                Ok(savings) => savings_solution(
                    savings,
                    self.instance.nodes_demand(),
                    self.instance.capacity(),
                    self.instance.nodes_list().len() as int,
                ),
            }
        }
    }

    open spec fn demands(&self) -> Seq<usize> {
        self.instance.nodes_demand()
    }

    open spec fn capacity(&self) -> usize {
        self.instance.capacity()
    }

    open spec fn node_count(&self) -> int {
        self.instance.nodes_list().len() as int
    }

    fn solve(&self) -> (result: Result<Vec<Vec<usize>>, SolveError>) {
        let nodes = self.instance.get_nodes_list();
        if !check_node_list(&nodes) {
            return Err(SolveError::Malformed);
        }
        let demands = self.instance.get_nodes_demand();
        let capacity = self.instance.get_capacity();
        match self.instance.compute_savings() {
            Err(e) => Err(e),
            Ok(savings) => savings_routes(&savings, &demands, capacity, nodes.len()),
        }
    }
}

} // verus!
