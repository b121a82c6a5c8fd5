//! The order of the customers where only a matrix of distances is known:
//! three customers that lie far apart stand for three clusters, each customer
//! joins the cluster of the nearest of them, and the clusters follow one
//! another, each by the distance from the customer that it stands for.

use vstd::prelude::*;
use crate::model::layout::{is_square, matrix_view};
use crate::model::sorting::{
    is_rearranged, lemma_sort_is_permutation, lemma_sort_is_sorted, sort_by_rule,
    stable_sort, SortRule,
};
use crate::algorithm_interface::{
    customer_count, is_customer_order, lemma_renumbered_customers,
};

verus! {

/// A customer in its cluster: its number, its group, and its distance from
/// the customer that the cluster stands on. The groups are 0, 2 and 4 for
/// the three customers that the clusters stand on, and 1, 3 and 5 for the
/// other customers of the three clusters.
pub type ClusterEntry = (usize, usize, usize);

/// The rule of the clusters: by group, and within a group by distance.
pub struct ByCluster;

impl SortRule<ClusterEntry> for ByCluster {
    open spec fn before(a: ClusterEntry, b: ClusterEntry) -> bool {
        a.1 < b.1 || (a.1 == b.1 && a.2 < b.2)
    }

    open spec fn admits(a: ClusterEntry) -> bool {
        true
    }

    fn is_before(a: &ClusterEntry, b: &ClusterEntry) -> (r: bool) {
        a.1 < b.1 || (a.1 == b.1 && a.2 < b.2)
    }

    proof fn lemma_rule_is_order() {
    }
}

/// Of the customers below `c_end`, other than `a`, the one farthest from
/// `a`; of several that are equally far the one with the largest number; 0
/// where there is none.
pub open spec fn farthest_below(m: Seq<Seq<usize>>, a: int, c_end: int) -> int
    decreases c_end,
{
    if c_end <= 1 {
        0
    } else {
        let best = farthest_below(m, a, c_end - 1);
        let c = c_end - 1;
        if c == a {
            best
        } else if best == 0 || m[a][c] >= m[a][best] {
            c
        } else {
            best
        }
    }
}

/// Of the customers below `c_end`, other than `a` and `b`, the one for which
/// the distances from `a` and from `b` sum to the most; of several with the
/// same sum the one with the smallest number; 0 where there is none.
pub open spec fn opposite_below(m: Seq<Seq<usize>>, a: int, b: int, c_end: int) -> int
    decreases c_end,
{
    if c_end <= 1 {
        0
    } else {
        let best = opposite_below(m, a, b, c_end - 1);
        let c = c_end - 1;
        if c == a || c == b {
            best
        } else if best == 0 || m[a][c] + m[b][c] > m[a][best] + m[b][best] {
            c
        } else {
            best
        }
    }
}

/// The second of the three customers: the one farthest from the first.
pub open spec fn second_anchor(m: Seq<Seq<usize>>, first: int) -> int {
    farthest_below(m, first, m.len() as int)
}

/// The third of the three customers: the one most opposite to the first two.
pub open spec fn third_anchor(m: Seq<Seq<usize>>, first: int) -> int {
    if second_anchor(m, first) == 0 {
        0
    } else {
        opposite_below(m, first, second_anchor(m, first), m.len() as int)
    }
}

/// The group of customer `c`, with `a1`, `a2` and `a3` the three customers
/// that the clusters stand on (0 for one that there is not). A customer joins
/// the cluster of the nearest of the three, and of equally near ones the
/// first.
pub open spec fn group_of(m: Seq<Seq<usize>>, a1: int, a2: int, a3: int, c: int) -> usize {
    if c == a1 {
        0
    } else if c == a2 {
        2
    } else if c == a3 {
        4
    } else if (a2 == 0 || m[a1][c] <= m[a2][c]) && (a3 == 0 || m[a1][c] <= m[a3][c]) {
        1
    } else if a2 != 0 && (a3 == 0 || m[a2][c] <= m[a3][c]) {
        3
    } else {
        5
    }
}

/// The distance of customer `c` from the customer that its cluster stands
/// on.
pub open spec fn distance_in_group(m: Seq<Seq<usize>>, a1: int, a2: int, a3: int, c: int) -> usize {
    let group = group_of(m, a1, a2, a3, c);
    if group == 1 {
        m[a1][c]
    } else if group == 3 {
        m[a2][c]
    } else if group == 5 {
        m[a3][c]
    } else {
        0
    }
}

/// The customers in their clusters, by their number.
pub open spec fn cluster_entries(m: Seq<Seq<usize>>, first: int) -> Seq<ClusterEntry> {
    let a2 = second_anchor(m, first);
    let a3 = third_anchor(m, first);
    Seq::new(
        customer_count(m.len() as int),
        |k: int|
            (
                (k + 1) as usize,
                group_of(m, first, a2, a3, k + 1),
                distance_in_group(m, first, a2, a3, k + 1),
            ),
    )
}

/// The numbers of the customers of a list of entries.
pub open spec fn entry_nodes(list: Seq<ClusterEntry>) -> Seq<usize> {
    Seq::new(list.len(), |k: int| list[k].0)
}

/// The customers cluster by cluster, with `first` the customer that the
/// first cluster stands on: each cluster begins with the customer that it
/// stands on, and goes on by the distance from it. Customers of a cluster
/// that are equally far keep the order of their numbers.
pub open spec fn cluster_order(m: Seq<Seq<usize>>, first: int) -> Seq<usize> {
    entry_nodes(sort_by_rule::<ClusterEntry, ByCluster>(cluster_entries(m, first)))
}

/// `c` is a customer below `c_end` other than `a` and `b`.
pub open spec fn is_other_customer(c: int, a: int, b: int, c_end: int) -> bool {
    1 <= c < c_end && c != a && c != b
}

/// `best` is, of the customers below `c_end` other than `a`, the one
/// farthest from `a`, and of several that are equally far the one with the
/// largest number; it is 0 where there is no such customer.
pub open spec fn is_farthest(m: Seq<Seq<usize>>, a: int, c_end: int, best: int) -> bool {
    &&& best == 0 <==> (forall|c: int| !#[trigger] is_other_customer(c, a, a, c_end))
    &&& best != 0 ==> is_other_customer(best, a, a, c_end)
    &&& best != 0 ==> (forall|c: int| #[trigger]
        is_other_customer(c, a, a, c_end) ==> m[a][c] < m[a][best] || (m[a][c] == m[a][best] && c
            <= best))
}

/// `best` is, of the customers below `c_end` other than `a` and `b`, the
/// one for which the distances from `a` and from `b` sum to the most, and
/// of several with the same sum the one with the smallest number; it is 0
/// where there is no such customer.
pub open spec fn is_most_opposite(m: Seq<Seq<usize>>, a: int, b: int, c_end: int, best: int) -> bool {
    &&& best == 0 <==> (forall|c: int| !#[trigger] is_other_customer(c, a, b, c_end))
    &&& best != 0 ==> is_other_customer(best, a, b, c_end)
    &&& best != 0 ==> (forall|c: int| #[trigger]
        is_other_customer(c, a, b, c_end) ==> m[a][c] + m[b][c] < m[a][best] + m[b][best] || (
        m[a][c] + m[b][c] == m[a][best] + m[b][best] && best <= c))
}

/// The customer `c` in its cluster.
pub open spec fn entry_of(m: Seq<Seq<usize>>, first: int, c: int) -> ClusterEntry {
    cluster_entries(m, first)[c - 1]
}

/// The order goes cluster by cluster: along the order the group never
/// falls, and within a group the distance never falls.
pub open spec fn is_clustered(order: Seq<usize>, m: Seq<Seq<usize>>, first: int) -> bool {
    forall|i: int, j: int|
        0 <= i < j < order.len() ==> {
            let before = entry_of(m, first, #[trigger] order[i] as int);
            let after = entry_of(m, first, #[trigger] order[j] as int);
            before.1 < after.1 || (before.1 == after.1 && before.2 <= after.2)
        }
}

/// The customer farthest from `a`, or 0 where `a` is the only customer.
pub fn find_second_anchor(m: &Vec<Vec<usize>>, a: usize) -> (best: usize)
    requires
        is_square(matrix_view(m), m@.len() as int),
        1 <= a < m@.len(),
    ensures
        best == second_anchor(matrix_view(m), a as int),
        best < m@.len(),
        best != a,
        is_farthest(matrix_view(m), a as int, m@.len() as int, best as int),
{
    let n = m.len();
    let ghost mv = matrix_view(m);
    let mut best: usize = 0;
    let mut c: usize = 1;
    while c < n
        invariant
            1 <= c <= n,
            n == m@.len(),
            mv == matrix_view(m),
            is_square(mv, n as int),
            1 <= a < n,
            best == farthest_below(mv, a as int, c as int),
            best < c,
            best != a,
            is_farthest(mv, a as int, c as int, best as int),
        decreases n - c,
    {
        proof {
            assert(mv[a as int].len() == n);
            assert(mv[a as int] == m@[a as int]@);
        }
        let ghost before = best;
        if c != a && (best == 0 || m[a][c] >= m[a][best]) {
            best = c;
        }
        proof {
            let (a, end) = (a as int, c as int);
            assert forall|d: int| #[trigger] is_other_customer(d, a, a, end + 1) implies d == end
                || is_other_customer(d, a, a, end) by {}
            if best == 0 {
                assert forall|d: int| !#[trigger] is_other_customer(d, a, a, end + 1) by {
                    assert(!is_other_customer(d, a, a, end));
                }
            } else {
                assert(is_other_customer(best as int, a, a, end + 1));
                assert forall|d: int| #[trigger]
                    is_other_customer(d, a, a, end + 1) implies mv[a][d] < mv[a][best as int] || (
                mv[a][d] == mv[a][best as int] && d <= best) by {
                    if d != end {
                        assert(is_other_customer(d, a, a, end));
                        assert(before != 0);
                    }
                }
            }
        }
        c += 1;
    }
    best
}

/// The customer most opposite to `a` and `b`, or 0 where there is no third
/// customer.
pub fn find_third_anchor(m: &Vec<Vec<usize>>, a: usize, b: usize) -> (best: usize)
    requires
        is_square(matrix_view(m), m@.len() as int),
        1 <= a < m@.len(),
        b < m@.len(),
    ensures
        best == opposite_below(matrix_view(m), a as int, b as int, m@.len() as int),
        best < m@.len(),
        best != a,
        best == 0 || best != b,
        is_most_opposite(matrix_view(m), a as int, b as int, m@.len() as int, best as int),
{
    let n = m.len();
    let ghost mv = matrix_view(m);
    let mut best: usize = 0;
    let mut c: usize = 1;
    while c < n
        invariant
            1 <= c <= n,
            n == m@.len(),
            mv == matrix_view(m),
            is_square(mv, n as int),
            1 <= a < n,
            b < n,
            best == opposite_below(mv, a as int, b as int, c as int),
            best < c,
            best != a,
            best == 0 || best != b,
            is_most_opposite(mv, a as int, b as int, c as int, best as int),
        decreases n - c,
    {
        proof {
            assert(mv[a as int].len() == n);
            assert(mv[a as int] == m@[a as int]@);
            assert(mv[b as int].len() == n);
            assert(mv[b as int] == m@[b as int]@);
        }
        let ghost before = best;
        if c != a && c != b && (best == 0 || m[a][c] as u128 + m[b][c] as u128 > m[a][best] as u128
            + m[b][best] as u128) {
            best = c;
        }
        proof {
            let (a, b, end) = (a as int, b as int, c as int);
            assert forall|d: int| #[trigger] is_other_customer(d, a, b, end + 1) implies d == end
                || is_other_customer(d, a, b, end) by {}
            if best == 0 {
                assert forall|d: int| !#[trigger] is_other_customer(d, a, b, end + 1) by {
                    assert(!is_other_customer(d, a, b, end));
                }
            } else {
                assert(is_other_customer(best as int, a, b, end + 1));
                assert forall|d: int| #[trigger]
                    is_other_customer(d, a, b, end + 1) implies mv[a][d] + mv[b][d] < mv[a][best as int]
                    + mv[b][best as int] || (mv[a][d] + mv[b][d] == mv[a][best as int]
                    + mv[b][best as int] && best <= d) by {
                    if d != end {
                        assert(is_other_customer(d, a, b, end));
                        assert(before != 0);
                    }
                }
            }
        }
        c += 1;
    }
    best
}

/// The order by clusters holds each customer once.
pub proof fn lemma_cluster_order_is_customer_order(m: Seq<Seq<usize>>, first: int)
    requires
        m.len() <= usize::MAX,
    ensures
        is_customer_order(cluster_order(m, first), m.len() as int),
{
    let list = cluster_entries(m, first);
    let sorted = sort_by_rule::<ClusterEntry, ByCluster>(list);
    let order = cluster_order(m, first);
    lemma_sort_is_permutation::<ClusterEntry, ByCluster>(list);
    let (from, to) = choose|from: Seq<int>, to: Seq<int>| is_rearranged(sorted, list, from, to);
    assert forall|t: int| 0 <= t < order.len() implies 0 <= #[trigger] from[t] < order.len()
        && to[from[t]] == t && order[t] == from[t] + 1 by {
        assert(order[t] == sorted[t].0);
        assert(sorted[t] == list[from[t]]);
        assert(list[from[t]].0 == from[t] + 1);
    }
    lemma_renumbered_customers(order, m.len() as int, from, to);
}

/// The order by clusters goes cluster by cluster, and begins with the
/// customer that the first cluster stands on.
pub proof fn lemma_cluster_order_is_clustered(m: Seq<Seq<usize>>, first: int)
    requires
        1 <= first < m.len() <= usize::MAX,
    ensures
        is_clustered(cluster_order(m, first), m, first),
        cluster_order(m, first)[0] == first,
{
    let list = cluster_entries(m, first);
    let sorted = sort_by_rule::<ClusterEntry, ByCluster>(list);
    let order = cluster_order(m, first);
    lemma_sort_is_permutation::<ClusterEntry, ByCluster>(list);
    lemma_sort_is_sorted::<ClusterEntry, ByCluster>(list);
    let (from, to) = choose|from: Seq<int>, to: Seq<int>| is_rearranged(sorted, list, from, to);
    assert forall|i: int, j: int| 0 <= i < j < order.len() implies {
        let before = entry_of(m, first, #[trigger] order[i] as int);
        let after = entry_of(m, first, #[trigger] order[j] as int);
        before.1 < after.1 || (before.1 == after.1 && before.2 <= after.2)
    } by {
        assert(order[i] == sorted[i].0 && order[j] == sorted[j].0);
        assert(sorted[i] == list[from[i]]);
        assert(sorted[j] == list[from[j]]);
        assert(list[from[i]].0 == from[i] + 1 && list[from[j]].0 == from[j] + 1);
        assert(!ByCluster::before(sorted[j], sorted[i]));
    }
    // the customer that the first cluster stands on is alone in the lowest group
    let at = to[first - 1];
    assert(from[at] == first - 1);
    assert(sorted[at] == list[from[at]]);
    assert(sorted[0] == list[from[0]]);
    assert(list[first - 1].1 == 0);
    assert(order[0] == sorted[0].0);
    assert(list[from[0]].0 == from[0] + 1);
    if at > 0 {
        assert(!ByCluster::before(sorted[at], sorted[0]));
        assert(list[from[0]].1 == 0);
        assert(from[0] + 1 == first);
    }
}

/// The customers cluster by cluster, with `first` the customer that the
/// first cluster stands on.
pub fn order_by_clusters(m: &Vec<Vec<usize>>, first: usize) -> (order: Vec<usize>)
    requires
        is_square(matrix_view(m), m@.len() as int),
        1 <= first < m@.len(),
    ensures
        order@ == cluster_order(matrix_view(m), first as int),
        is_customer_order(order@, m@.len() as int),
        is_clustered(order@, matrix_view(m), first as int),
        order@[0] == first,
{
    let n = m.len();
    let ghost mv = matrix_view(m);
    let a1 = first;
    let a2 = find_second_anchor(m, a1);
    let a3 = if a2 == 0 { 0 } else { find_third_anchor(m, a1, a2) };
    let mut list: Vec<ClusterEntry> = Vec::new();
    let mut c: usize = 1;
    while c < n
        invariant
            1 <= c <= n,
            n == m@.len(),
            mv == matrix_view(m),
            is_square(mv, n as int),
            1 <= a1 < n,
            a2 < n,
            a3 < n,
            a1 == first,
            a2 == second_anchor(mv, first as int),
            a3 == third_anchor(mv, first as int),
            list@.len() == c - 1,
            forall|k: int| 0 <= k < c - 1 ==> #[trigger] list@[k] == cluster_entries(
                mv,
                first as int,
            )[k],
        decreases n - c,
    {
        proof {
            assert(mv[a1 as int].len() == n);
            assert(mv[a1 as int] == m@[a1 as int]@);
            assert(mv[a2 as int].len() == n);
            assert(mv[a2 as int] == m@[a2 as int]@);
            assert(mv[a3 as int].len() == n);
            assert(mv[a3 as int] == m@[a3 as int]@);
        }
        let entry: ClusterEntry = if c == a1 {
            (c, 0, 0)
        } else if c == a2 {
            (c, 2, 0)
        } else if c == a3 {
            (c, 4, 0)
        } else if (a2 == 0 || m[a1][c] <= m[a2][c]) && (a3 == 0 || m[a1][c] <= m[a3][c]) {
            (c, 1, m[a1][c])
        } else if a2 != 0 && (a3 == 0 || m[a2][c] <= m[a3][c]) {
            (c, 3, m[a2][c])
        } else {
            (c, 5, m[a3][c])
        };
        list.push(entry);
        c += 1;
    }
    assert(list@ =~= cluster_entries(mv, first as int));
    let sorted = stable_sort::<ClusterEntry, ByCluster>(&list);
    let mut order: Vec<usize> = Vec::new();
    let mut k: usize = 0;
    while k < sorted.len()
        invariant
            k <= sorted.len(),
            order@.len() == k,
            forall|q: int| 0 <= q < k ==> #[trigger] order@[q] == sorted@[q].0,
        decreases sorted.len() - k,
    {
        order.push(sorted[k].0);
        k += 1;
    }
    proof {
        assert(order@ =~= entry_nodes(sorted@));
        lemma_cluster_order_is_customer_order(mv, first as int);
        lemma_cluster_order_is_clustered(mv, first as int);
    }
    order
}

} // verus!
