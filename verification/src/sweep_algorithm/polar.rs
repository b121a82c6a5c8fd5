//! The order of the customers around the depot: by the angle under which the
//! depot sees them, counted from the direction of the first axis against the
//! clock, and by their distance from the depot where the angle is the same.
//!
//! Angles are compared without computing them: two directions of the same
//! half plane are ordered by the sign of their cross product. A customer at
//! the place of the depot counts as lying in the direction of the first axis.

use vstd::prelude::*;
use crate::model::sorting::{
    is_rearranged, lemma_sort_is_permutation, lemma_sort_is_sorted, sort_by_rule,
    stable_sort, SortRule,
};
use crate::algorithm_interface::{
    customer_count, is_customer_order, lemma_renumbered_customers,
};
use crate::tsplib_parser::custom_types::{Coord, MAX_UNITS};

verus! {

/// A customer as the depot sees it: its number, and how far it lies from the
/// depot along each axis.
pub type Bearing = (usize, i64, i64);

/// The direction has an angle below the straight angle.
pub open spec fn in_first_half(dx: int, dy: int) -> bool {
    dy > 0 || (dy == 0 && dx >= 0)
}

/// The first part of the direction, with 1 for a customer at the depot.
pub open spec fn heading(dx: int, dy: int) -> int {
    if dx == 0 && dy == 0 {
        1
    } else {
        dx
    }
}

/// The cross product of two directions: positive where the second lies
/// against the clock from the first.
pub open spec fn turn(ax: int, ay: int, bx: int, by: int) -> int {
    ax * by - ay * bx
}

/// The angle of `a` is smaller than that of `b`.
pub open spec fn angle_before(a: Bearing, b: Bearing) -> bool {
    let first_a = in_first_half(a.1 as int, a.2 as int);
    let first_b = in_first_half(b.1 as int, b.2 as int);
    (first_a && !first_b) || (first_a == first_b && turn(
        heading(a.1 as int, a.2 as int),
        a.2 as int,
        heading(b.1 as int, b.2 as int),
        b.2 as int,
    ) > 0)
}

/// `a` and `b` have the same angle.
pub open spec fn same_angle(a: Bearing, b: Bearing) -> bool {
    in_first_half(a.1 as int, a.2 as int) == in_first_half(b.1 as int, b.2 as int) && turn(
        heading(a.1 as int, a.2 as int),
        a.2 as int,
        heading(b.1 as int, b.2 as int),
        b.2 as int,
    ) == 0
}

/// The square of the distance from the depot.
pub open spec fn radius_squared(a: Bearing) -> int {
    a.1 * a.1 + a.2 * a.2
}

/// The sweep meets `a` before `b`: under a smaller angle, or under the same
/// angle and nearer to the depot.
pub open spec fn sweeps_before(a: Bearing, b: Bearing) -> bool {
    angle_before(a, b) || (same_angle(a, b) && radius_squared(a) < radius_squared(b))
}

/// The rule of the sweep.
pub struct AroundDepot;

impl SortRule<Bearing> for AroundDepot {
    open spec fn before(a: Bearing, b: Bearing) -> bool {
        sweeps_before(a, b)
    }

    open spec fn admits(a: Bearing) -> bool {
        &&& -2 * MAX_UNITS <= a.1 <= 2 * MAX_UNITS
        &&& -2 * MAX_UNITS <= a.2 <= 2 * MAX_UNITS
    }

    fn is_before(a: &Bearing, b: &Bearing) -> (r: bool) {
        let ax: i128 = if a.1 == 0 && a.2 == 0 { 1 } else { a.1 as i128 };
        let ay: i128 = a.2 as i128;
        let bx: i128 = if b.1 == 0 && b.2 == 0 { 1 } else { b.1 as i128 };
        let by: i128 = b.2 as i128;
        let first_a = a.2 > 0 || (a.2 == 0 && a.1 >= 0);
        let first_b = b.2 > 0 || (b.2 == 0 && b.1 >= 0);
        proof {
            assert((2 * MAX_UNITS) * (2 * MAX_UNITS) == 4_000_000_000_000_000_000_000_000_000_000)
                by (nonlinear_arith);
            lemma_product_bound(ax as int, by as int, 2 * MAX_UNITS);
            lemma_product_bound(ay as int, bx as int, 2 * MAX_UNITS);
            lemma_product_bound(a.1 as int, a.1 as int, 2 * MAX_UNITS);
            lemma_product_bound(a.2 as int, a.2 as int, 2 * MAX_UNITS);
            lemma_product_bound(b.1 as int, b.1 as int, 2 * MAX_UNITS);
            lemma_product_bound(b.2 as int, b.2 as int, 2 * MAX_UNITS);
        }
        if first_a != first_b {
            first_a
        } else {
            let cross: i128 = ax * by - ay * bx;
            if cross != 0 {
                cross > 0
            } else {
                let ra: i128 = (a.1 as i128) * (a.1 as i128) + (a.2 as i128) * (a.2 as i128);
                let rb: i128 = (b.1 as i128) * (b.1 as i128) + (b.2 as i128) * (b.2 as i128);
                ra < rb
            }
        }
    }

    proof fn lemma_rule_is_order() {
        assert forall|a: Bearing, b: Bearing| #[trigger] sweeps_before(a, b) implies !sweeps_before(
            b,
            a,
        ) by {
            let (ax, ay) = (heading(a.1 as int, a.2 as int), a.2 as int);
            let (bx, by) = (heading(b.1 as int, b.2 as int), b.2 as int);
            assert(turn(bx, by, ax, ay) == -turn(ax, ay, bx, by)) by (nonlinear_arith);
        }
        assert forall|a: Bearing, b: Bearing, c: Bearing|
            !#[trigger] sweeps_before(a, b) && !#[trigger] sweeps_before(
                b,
                c,
            ) implies !sweeps_before(a, c) by {
            lemma_may_precede_chain(c, b, a);
        }
    }
}

/// The direction lies in the first half: it is not the direction of
/// nothing, and its angle is below the straight angle.
pub open spec fn points_first(x: int, y: int) -> bool {
    y > 0 || (y == 0 && x > 0)
}

/// Three directions of the first half, of which the second does not lie
/// with the clock from the first, nor the third from the second: the third
/// does not lie with the clock from the first, and where it lies in the
/// direction of the first, all three lie in one direction.
pub proof fn lemma_turn_chain(ax: int, ay: int, bx: int, by: int, cx: int, cy: int)
    requires
        points_first(ax, ay),
        points_first(bx, by),
        points_first(cx, cy),
        turn(ax, ay, bx, by) >= 0,
        turn(bx, by, cx, cy) >= 0,
    ensures
        turn(ax, ay, cx, cy) >= 0,
        turn(ax, ay, cx, cy) == 0 ==> turn(ax, ay, bx, by) == 0 && turn(bx, by, cx, cy) == 0,
{
    let ab = turn(ax, ay, bx, by);
    let bc = turn(bx, by, cx, cy);
    let ac = turn(ax, ay, cx, cy);
    assert(ac * by == ab * cy + bc * ay) by (nonlinear_arith)
        requires
            ab == ax * by - ay * bx,
            bc == bx * cy - by * cx,
            ac == ax * cy - ay * cx,
    ;
    if by > 0 {
        assert(ab * cy >= 0 && bc * ay >= 0) by (nonlinear_arith)
            requires
                ab >= 0,
                bc >= 0,
                cy >= 0,
                ay >= 0,
        ;
        assert(ac >= 0) by (nonlinear_arith)
            requires
                ac * by >= 0,
                by > 0,
        ;
        if ac == 0 {
            assert(ac * by == 0) by (nonlinear_arith)
                requires
                    ac == 0,
            ;
            assert(ab * cy == 0 && bc * ay == 0);
            if cy == 0 {
                assert(bc == -(by * cx)) by (nonlinear_arith)
                    requires
                        bc == bx * cy - by * cx,
                        cy == 0,
                ;
                assert(by * cx > 0) by (nonlinear_arith)
                    requires
                        by > 0,
                        cx > 0,
                ;
            }
            assert(ab == 0) by (nonlinear_arith)
                requires
                    ab * cy == 0,
                    cy > 0,
            ;
            if ay == 0 {
                assert(ab == ax * by) by (nonlinear_arith)
                    requires
                        ab == ax * by - ay * bx,
                        ay == 0,
                ;
                assert(ax * by > 0) by (nonlinear_arith)
                    requires
                        by > 0,
                        ax > 0,
                ;
            }
            assert(bc == 0) by (nonlinear_arith)
                requires
                    bc * ay == 0,
                    ay > 0,
            ;
        }
    } else {
        assert(ab == -(ay * bx)) by (nonlinear_arith)
            requires
                ab == ax * by - ay * bx,
                by == 0,
        ;
        assert(ay == 0) by (nonlinear_arith)
            requires
                ay * bx <= 0,
                bx > 0,
                ay >= 0,
        ;
        assert(ac == ax * cy && bc == bx * cy && ab == 0) by (nonlinear_arith)
            requires
                ac == ax * cy - ay * cx,
                bc == bx * cy - by * cx,
                ab == ax * by - ay * bx,
                ay == 0,
                by == 0,
        ;
        assert(ax * cy >= 0 && (ax * cy == 0 ==> cy == 0)) by (nonlinear_arith)
            requires
                ax > 0,
                cy >= 0,
        ;
        if cy == 0 {
            assert(bx * cy == 0) by (nonlinear_arith)
                requires
                    cy == 0,
            ;
        }
    }
}

/// `a` may come before `b` in the sweep: `b` need not come before `a`.
pub open spec fn may_precede(a: Bearing, b: Bearing) -> bool {
    !sweeps_before(b, a)
}

/// Where `a` may come before `b`, and `b` before `c`, `a` may come before
/// `c`.
pub proof fn lemma_may_precede_chain(a: Bearing, b: Bearing, c: Bearing)
    requires
        may_precede(a, b),
        may_precede(b, c),
    ensures
        may_precede(a, c),
{
    let (ax, ay) = (heading(a.1 as int, a.2 as int), a.2 as int);
    let (bx, by) = (heading(b.1 as int, b.2 as int), b.2 as int);
    let (cx, cy) = (heading(c.1 as int, c.2 as int), c.2 as int);
    let fa = in_first_half(a.1 as int, a.2 as int);
    let fb = in_first_half(b.1 as int, b.2 as int);
    let fc = in_first_half(c.1 as int, c.2 as int);
    assert(turn(bx, by, ax, ay) == -turn(ax, ay, bx, by)) by (nonlinear_arith);
    assert(turn(cx, cy, bx, by) == -turn(bx, by, cx, cy)) by (nonlinear_arith);
    assert(turn(cx, cy, ax, ay) == -turn(ax, ay, cx, cy)) by (nonlinear_arith);
    if fa == fc {
        // all three lie in one half
        assert(fb == fa);
        if fa {
            lemma_turn_chain(ax, ay, bx, by, cx, cy);
        } else {
            assert(turn(-ax, -ay, -bx, -by) == turn(ax, ay, bx, by)) by (nonlinear_arith);
            assert(turn(-bx, -by, -cx, -cy) == turn(bx, by, cx, cy)) by (nonlinear_arith);
            assert(turn(-ax, -ay, -cx, -cy) == turn(ax, ay, cx, cy)) by (nonlinear_arith);
            lemma_turn_chain(-ax, -ay, -bx, -by, -cx, -cy);
        }
    }
}

/// A product of two numbers within `bound` of zero is within `bound * bound`
/// of zero.
pub proof fn lemma_product_bound(a: int, b: int, bound: int)
    requires
        -bound <= a <= bound,
        -bound <= b <= bound,
    ensures
        -(bound * bound) <= a * b <= bound * bound,
{
    assert(-(bound * bound) <= a * b <= bound * bound) by (nonlinear_arith)
        requires
            -bound <= a <= bound,
            -bound <= b <= bound,
    ;
}

/// The customers as the depot sees them, by their number.
pub open spec fn bearings(coords: Seq<Coord>) -> Seq<Bearing> {
    Seq::new(
        customer_count(coords.len() as int),
        |k: int|
            (
                (k + 1) as usize,
                (coords[k + 1].x() - coords[0].x()) as i64,
                (coords[k + 1].y() - coords[0].y()) as i64,
            ),
    )
}

/// The numbers of the customers of a list of bearings.
pub open spec fn bearing_nodes(list: Seq<Bearing>) -> Seq<usize> {
    Seq::new(list.len(), |k: int| list[k].0)
}

/// The customers in the order in which the sweep meets them. Customers that
/// lie at the same place keep the order of their numbers.
pub open spec fn polar_order(coords: Seq<Coord>) -> Seq<usize> {
    bearing_nodes(sort_by_rule::<Bearing, AroundDepot>(bearings(coords)))
}

/// The customer `c` as the depot sees it.
pub open spec fn bearing_of(coords: Seq<Coord>, c: int) -> Bearing {
    bearings(coords)[c - 1]
}

/// The order is one of the sweep: the sweep meets no customer before one
/// that stands earlier in the order. Along the order the angle never falls,
/// and under one angle the distance from the depot never falls.
pub open spec fn is_swept(order: Seq<usize>, coords: Seq<Coord>) -> bool {
    forall|i: int, j: int|
        0 <= i < j < order.len() ==> !sweeps_before(
            bearing_of(coords, #[trigger] order[j] as int),
            bearing_of(coords, #[trigger] order[i] as int),
        )
}

/// The sweep meets each customer once.
pub proof fn lemma_polar_order_is_customer_order(coords: Seq<Coord>)
    requires
        coords.len() <= usize::MAX,
    ensures
        is_customer_order(polar_order(coords), coords.len() as int),
{
    let list = bearings(coords);
    let sorted = sort_by_rule::<Bearing, AroundDepot>(list);
    let order = polar_order(coords);
    lemma_sort_is_permutation::<Bearing, AroundDepot>(list);
    let (from, to) = choose|from: Seq<int>, to: Seq<int>| is_rearranged(sorted, list, from, to);
    assert forall|t: int| 0 <= t < order.len() implies 0 <= #[trigger] from[t] < order.len()
        && to[from[t]] == t && order[t] == from[t] + 1 by {
        assert(order[t] == sorted[t].0);
        assert(sorted[t] == list[from[t]]);
        assert(list[from[t]].0 == from[t] + 1);
    }
    lemma_renumbered_customers(order, coords.len() as int, from, to);
}

/// The sweep meets no customer before one that stands earlier in its order.
pub proof fn lemma_polar_order_is_swept(coords: Seq<Coord>)
    requires
        coords.len() <= usize::MAX,
    ensures
        is_swept(polar_order(coords), coords),
{
    let list = bearings(coords);
    let sorted = sort_by_rule::<Bearing, AroundDepot>(list);
    let order = polar_order(coords);
    lemma_sort_is_permutation::<Bearing, AroundDepot>(list);
    lemma_sort_is_sorted::<Bearing, AroundDepot>(list);
    let (from, to) = choose|from: Seq<int>, to: Seq<int>| is_rearranged(sorted, list, from, to);
    assert forall|i: int, j: int| 0 <= i < j < order.len() implies !sweeps_before(
        bearing_of(coords, #[trigger] order[j] as int),
        bearing_of(coords, #[trigger] order[i] as int),
    ) by {
        assert(order[i] == sorted[i].0 && order[j] == sorted[j].0);
        assert(sorted[i] == list[from[i]]);
        assert(sorted[j] == list[from[j]]);
        assert(list[from[i]].0 == from[i] + 1 && list[from[j]].0 == from[j] + 1);
        assert(!AroundDepot::before(sorted[j], sorted[i]));
    }
}

/// The customers in the order in which the sweep meets them. Row 0 of the
/// table is the depot.
pub fn order_by_angle(coords: &Vec<Coord>) -> (order: Vec<usize>)
    requires
        forall|k: int| 0 <= k < coords@.len() ==> (#[trigger] coords@[k]).in_range(),
    ensures
        order@ == polar_order(coords@),
        is_customer_order(order@, coords@.len() as int),
        is_swept(order@, coords@),
{
    let n = coords.len();
    let mut list: Vec<Bearing> = Vec::new();
    if n > 0 {
        let x0 = coords[0].get_x();
        let y0 = coords[0].get_y();
        let mut c: usize = 1;
        while c < n
            invariant
                1 <= c <= n,
                n == coords@.len(),
                x0 == coords@[0].x(),
                y0 == coords@[0].y(),
                forall|k: int| 0 <= k < coords@.len() ==> (#[trigger] coords@[k]).in_range(),
                list@.len() == c - 1,
                forall|k: int| 0 <= k < c - 1 ==> #[trigger] list@[k] == bearings(coords@)[k],
                forall|k: int| 0 <= k < c - 1 ==> AroundDepot::admits(#[trigger] list@[k]),
            decreases n - c,
        {
            assert(coords@[c as int].in_range());
            assert(coords@[0].in_range());
            let entry: Bearing = (c, coords[c].get_x() - x0, coords[c].get_y() - y0);
            list.push(entry);
            c += 1;
        }
    }
    assert(list@ =~= bearings(coords@));
    let sorted = stable_sort::<Bearing, AroundDepot>(&list);
    let mut order: Vec<usize> = Vec::new();
    let mut k: usize = 0;
    while k < sorted.len()
        invariant
            k <= sorted.len(),
            order@.len() == k,
            forall|q: int| 0 <= q < k ==> #[trigger] order@[q] == sorted@[q].0,
        decreases sorted.len() - k,
    {
        order.push(sorted[k].0);
        k += 1;
    }
    proof {
        assert(order@ =~= bearing_nodes(sorted@));
        lemma_polar_order_is_customer_order(coords@);
        lemma_polar_order_is_swept(coords@);
    }
    order
}

} // verus!
