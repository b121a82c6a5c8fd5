//! From the rows of numbers of a data section to what the section holds. A
//! row with the wrong count of numbers holds nothing.

use vstd::prelude::*;
use crate::model::layout::matrix_view;
use crate::tsplib_parser::custom_types::{Coord, EdgeData, EdgeModel, Node};
use crate::tsplib_parser::number::Number;
use crate::tsplib_parser::problem_instance::edges_view;
use crate::tsplib_parser::sections::rows_view;

verus! {

/// The whole part of a number, for a number that counts or names
/// something: the millionths are cut off, a negative number is 0, and a
/// number above the largest is the largest.
pub open spec fn whole_part(x: Number) -> usize {
    if x <= 0 {
        0
    } else if x / 1_000_000 > usize::MAX {
        usize::MAX
    } else {
        (x / 1_000_000) as usize
    }
}

/// The whole parts of the numbers of a row.
pub open spec fn whole_parts(row: Seq<Number>) -> Seq<usize> {
    Seq::new(row.len(), |k: int| whole_part(row[k]))
}

/// A row of three numbers as a node of the plane.
pub open spec fn coord_2d_of(row: Seq<Number>) -> Option<Coord> {
    if row.len() == 3 {
        Some(Coord::Coord2d((whole_part(row[0]), row[1], row[2])))
    } else {
        None
    }
}

/// A row of four numbers as a node in space.
pub open spec fn coord_3d_of(row: Seq<Number>) -> Option<Coord> {
    if row.len() == 4 {
        Some(Coord::Coord3d((whole_part(row[0]), row[1], row[2], row[3])))
    } else {
        None
    }
}

/// A row of one number as a depot.
pub open spec fn depot_of(row: Seq<Number>) -> Option<Node> {
    if row.len() == 1 {
        Some(whole_part(row[0]))
    } else {
        None
    }
}

/// A row of two numbers as a node and its demand.
pub open spec fn node_demand_of(row: Seq<Number>) -> Option<(Node, usize)> {
    if row.len() == 2 {
        Some((whole_part(row[0]), whole_part(row[1])))
    } else {
        None
    }
}

/// A row of two numbers as an edge.
pub open spec fn edge_of(row: Seq<Number>) -> Option<EdgeModel> {
    if row.len() == 2 {
        Some(EdgeModel::Edge(whole_part(row[0]), whole_part(row[1])))
    } else {
        None
    }
}

/// A row of two numbers or more as an adjacency list.
pub open spec fn adj_vec_of(row: Seq<Number>) -> Option<EdgeModel> {
    if row.len() >= 2 {
        Some(EdgeModel::Adj(whole_parts(row)))
    } else {
        None
    }
}

/// A row of one number or more as a list of whole numbers: a tour, or a row
/// of weights.
pub open spec fn list_of(row: Seq<Number>) -> Option<Seq<usize>> {
    if row.len() >= 1 {
        Some(whole_parts(row))
    } else {
        None
    }
}

/// How the rows of a coordinate section are read: with three coordinates or
/// with two.
pub open spec fn coord_rule(in_space: bool) -> spec_fn(Seq<Number>) -> Option<Coord> {
    |row: Seq<Number>|
        if in_space {
            coord_3d_of(row)
        } else {
            coord_2d_of(row)
        }
}

/// How the rows of a depot section are read.
pub open spec fn depot_rule() -> spec_fn(Seq<Number>) -> Option<Node> {
    |row: Seq<Number>| depot_of(row)
}

/// How the rows of a demand section are read.
pub open spec fn demand_rule() -> spec_fn(Seq<Number>) -> Option<(Node, usize)> {
    |row: Seq<Number>| node_demand_of(row)
}

/// How the rows of an edge section are read: as edges or as adjacency
/// lists.
pub open spec fn edge_rule(as_edges: bool) -> spec_fn(Seq<Number>) -> Option<EdgeModel> {
    |row: Seq<Number>|
        if as_edges {
            edge_of(row)
        } else {
            adj_vec_of(row)
        }
}

/// How the rows of a tour section and of a weight section are read.
pub open spec fn list_rule() -> spec_fn(Seq<Number>) -> Option<Seq<usize>> {
    |row: Seq<Number>| list_of(row)
}

/// What the rows of a section hold by a rule: the rows that hold nothing
/// are left out.
pub open spec fn decoded<T>(rows: Seq<Seq<Number>>, rule: spec_fn(Seq<Number>) -> Option<T>) -> Seq<T>
    decreases rows.len(),
{
    if rows.len() == 0 {
        Seq::empty()
    } else {
        match rule(rows.last()) {
            Some(item) => decoded(rows.drop_last(), rule).push(item),
            None => decoded(rows.drop_last(), rule),
        }
    }
}

/// The rows up to row `k`, with row `k`, hold what the rows before hold and
/// what row `k` holds.
pub proof fn lemma_decoded_step<T>(
    rows: Seq<Seq<Number>>,
    rule: spec_fn(Seq<Number>) -> Option<T>,
    k: int,
)
    requires
        0 <= k < rows.len(),
    ensures
        decoded(rows.take(k + 1), rule) == match rule(rows[k]) {
            Some(item) => decoded(rows.take(k), rule).push(item),
            None => decoded(rows.take(k), rule),
        },
{
    assert(rows.take(k + 1).drop_last() =~= rows.take(k));
    assert(rows.take(k + 1).last() == rows[k]);
}

/// The whole part of a number.
pub fn to_whole(x: Number) -> (whole: usize)
    ensures
        whole == whole_part(x),
{
    if x <= 0 {
        0
    } else {
        let parts: u64 = (x / 1_000_000) as u64;
        if parts > usize::MAX as u64 {
            usize::MAX
        } else {
            parts as usize
        }
    }
}

/// The whole parts of the numbers of a row.
pub fn to_wholes(row: &Vec<Number>) -> (wholes: Vec<usize>)
    ensures
        wholes@ == whole_parts(row@),
{
    let mut wholes: Vec<usize> = Vec::new();
    let mut k: usize = 0;
    while k < row.len()
        invariant
            k <= row.len(),
            wholes@.len() == k,
            forall|q: int| 0 <= q < k ==> #[trigger] wholes@[q] == whole_part(row@[q]),
        decreases row.len() - k,
    {
        wholes.push(to_whole(row[k]));
        k += 1;
    }
    assert(wholes@ =~= whole_parts(row@));
    wholes
}

/// A row of three numbers as a node of the plane: its number and its two
/// coordinates.
pub fn parse_coord_2d(coord: Vec<Number>) -> (node: Option<Coord>)
    ensures
        node == coord_2d_of(coord@),
{
    if coord.len() == 3 {
        Some(Coord::Coord2d((to_whole(coord[0]), coord[1], coord[2])))
    } else {
        None
    }
}

/// A row of four numbers as a node in space: its number and its three
/// coordinates.
pub fn parse_coord_3d(coord: Vec<Number>) -> (node: Option<Coord>)
    ensures
        node == coord_3d_of(coord@),
{
    if coord.len() == 4 {
        Some(Coord::Coord3d((to_whole(coord[0]), coord[1], coord[2], coord[3])))
    } else {
        None
    }
}

/// A row of one number as a depot.
pub fn parse_depot(depot: Vec<Number>) -> (node: Option<usize>)
    ensures
        node == depot_of(depot@),
{
    if depot.len() == 1 {
        Some(to_whole(depot[0]))
    } else {
        None
    }
}

/// A row of two numbers as a node and its demand.
pub fn parse_node_demand(node_demand: Vec<Number>) -> (pair: Option<(usize, usize)>)
    ensures
        pair == node_demand_of(node_demand@),
{
    if node_demand.len() == 2 {
        Some((to_whole(node_demand[0]), to_whole(node_demand[1])))
    } else {
        None
    }
}

/// An edge or an adjacency list, or nothing, as what it holds.
pub open spec fn edge_view(edge: Option<EdgeData>) -> Option<EdgeModel> {
    match edge {
        Some(e) => Some(e@),
        None => None,
    }
}

/// A list, or nothing, as a sequence.
pub open spec fn list_view(list: Option<Vec<usize>>) -> Option<Seq<usize>> {
    match list {
        Some(l) => Some(l@),
        None => None,
    }
}

/// A row of two numbers as an edge.
pub fn parse_edge(edge: Vec<Number>) -> (ends: Option<EdgeData>)
    ensures
        edge_view(ends) == edge_of(edge@),
{
    if edge.len() == 2 {
        Some(EdgeData::Edge((to_whole(edge[0]), to_whole(edge[1]))))
    } else {
        None
    }
}

/// A row of two numbers or more as an adjacency list.
pub fn parse_adj_vec(node_vec: Vec<Number>) -> (list: Option<EdgeData>)
    ensures
        edge_view(list) == adj_vec_of(node_vec@),
{
    if node_vec.len() >= 2 {
        Some(EdgeData::Adj(to_wholes(&node_vec)))
    } else {
        None
    }
}

/// A row of one number or more as a tour.
pub fn parse_tour(tour_vec: Vec<Number>) -> (tour: Option<Vec<usize>>)
    ensures
        list_view(tour) == list_of(tour_vec@),
{
    if tour_vec.len() >= 1 {
        Some(to_wholes(&tour_vec))
    } else {
        None
    }
}

/// A row of one number or more as a row of weights.
pub fn parse_edge_weight(edge_weight: Vec<Number>) -> (weights: Option<Vec<usize>>)
    ensures
        list_view(weights) == list_of(edge_weight@),
{
    if edge_weight.len() >= 1 {
        Some(to_wholes(&edge_weight))
    } else {
        None
    }
}

/// A copy of a row.
pub fn copy_row(row: &Vec<Number>) -> (copy: Vec<Number>)
    ensures
        copy@ == row@,
{
    let mut copy: Vec<Number> = Vec::new();
    let mut k: usize = 0;
    while k < row.len()
        invariant
            k <= row.len(),
            copy@ == row@.take(k as int),
        decreases row.len() - k,
    {
        copy.push(row[k]);
        assert(copy@ =~= row@.take(k + 1));
        k += 1;
    }
    assert(row@.take(row.len() as int) =~= row@);
    copy
}

/// The nodes that the rows of a coordinate section hold.
pub fn decode_coords(rows: &Vec<Vec<Number>>, in_space: bool) -> (nodes: Vec<Coord>)
    ensures
        nodes@ == decoded(rows_view(rows), coord_rule(in_space)),
{
    let ghost all = rows_view(rows);
    let ghost rule = coord_rule(in_space);
    let mut nodes: Vec<Coord> = Vec::new();
    let mut k: usize = 0;
    assert(all.take(0) =~= Seq::<Seq<Number>>::empty());
    while k < rows.len()
        invariant
            k <= rows.len(),
            all == rows_view(rows),
            rule == coord_rule(in_space),
            nodes@ == decoded(all.take(k as int), rule),
        decreases rows.len() - k,
    {
        proof {
            lemma_decoded_step(all, rule, k as int);
            assert(all[k as int] == rows@[k as int]@);
        }
        let row = copy_row(&rows[k]);
        let node = if in_space { parse_coord_3d(row) } else { parse_coord_2d(row) };
        match node {
            Some(c) => {
                nodes.push(c);
            },
            None => {},
        }
        k += 1;
    }
    assert(all.take(rows.len() as int) =~= all);
    nodes
}

/// The depots that the rows of a depot section hold.
pub fn decode_depots(rows: &Vec<Vec<Number>>) -> (depots: Vec<Node>)
    ensures
        depots@ == decoded(rows_view(rows), depot_rule()),
{
    let ghost all = rows_view(rows);
    let ghost rule = depot_rule();
    let mut depots: Vec<Node> = Vec::new();
    let mut k: usize = 0;
    assert(all.take(0) =~= Seq::<Seq<Number>>::empty());
    while k < rows.len()
        invariant
            k <= rows.len(),
            all == rows_view(rows),
            rule == depot_rule(),
            depots@ == decoded(all.take(k as int), rule),
        decreases rows.len() - k,
    {
        proof {
            lemma_decoded_step(all, rule, k as int);
            assert(all[k as int] == rows@[k as int]@);
        }
        match parse_depot(copy_row(&rows[k])) {
            Some(d) => {
                depots.push(d);
            },
            None => {},
        }
        k += 1;
    }
    assert(all.take(rows.len() as int) =~= all);
    depots
}

/// The demands that the rows of a demand section hold.
pub fn decode_demands(rows: &Vec<Vec<Number>>) -> (demands: Vec<(Node, usize)>)
    ensures
        demands@ == decoded(rows_view(rows), demand_rule()),
{
    let ghost all = rows_view(rows);
    let ghost rule = demand_rule();
    let mut demands: Vec<(Node, usize)> = Vec::new();
    let mut k: usize = 0;
    assert(all.take(0) =~= Seq::<Seq<Number>>::empty());
    while k < rows.len()
        invariant
            k <= rows.len(),
            all == rows_view(rows),
            rule == demand_rule(),
            demands@ == decoded(all.take(k as int), rule),
        decreases rows.len() - k,
    {
        proof {
            lemma_decoded_step(all, rule, k as int);
            assert(all[k as int] == rows@[k as int]@);
        }
        match parse_node_demand(copy_row(&rows[k])) {
            Some(d) => {
                demands.push(d);
            },
            None => {},
        }
        k += 1;
    }
    assert(all.take(rows.len() as int) =~= all);
    demands
}

/// The edges that the rows of an edge section hold.
pub fn decode_edges(rows: &Vec<Vec<Number>>, as_edges: bool) -> (edges: Vec<EdgeData>)
    ensures
        edges_view(&edges) == decoded(rows_view(rows), edge_rule(as_edges)),
{
    let ghost all = rows_view(rows);
    let ghost rule = edge_rule(as_edges);
    let mut edges: Vec<EdgeData> = Vec::new();
    let mut k: usize = 0;
    proof {
        assert(all.take(0) =~= Seq::<Seq<Number>>::empty());
        assert(edges_view(&edges) =~= decoded(all.take(0), rule));
    }
    while k < rows.len()
        invariant
            k <= rows.len(),
            all == rows_view(rows),
            rule == edge_rule(as_edges),
            edges_view(&edges) == decoded(all.take(k as int), rule),
        decreases rows.len() - k,
    {
        proof {
            lemma_decoded_step(all, rule, k as int);
            assert(all[k as int] == rows@[k as int]@);
        }
        let row = copy_row(&rows[k]);
        let edge = if as_edges { parse_edge(row) } else { parse_adj_vec(row) };
        let ghost before = edges_view(&edges);
        match edge {
            Some(e) => {
                edges.push(e);
                proof {
                    assert(edges_view(&edges) =~= before.push(e@));
                }
            },
            None => {},
        }
        k += 1;
    }
    assert(all.take(rows.len() as int) =~= all);
    edges
}

/// The lists that the rows of a tour section or, where `as_weights` says
/// so, of a weight section hold.
pub fn decode_lists(rows: &Vec<Vec<Number>>, as_weights: bool) -> (lists: Vec<Vec<usize>>)
    ensures
        matrix_view(&lists) == decoded(rows_view(rows), list_rule()),
{
    let ghost all = rows_view(rows);
    let ghost rule = list_rule();
    let mut lists: Vec<Vec<usize>> = Vec::new();
    let mut k: usize = 0;
    proof {
        assert(all.take(0) =~= Seq::<Seq<Number>>::empty());
        assert(matrix_view(&lists) =~= decoded(all.take(0), rule));
    }
    while k < rows.len()
        invariant
            k <= rows.len(),
            all == rows_view(rows),
            rule == list_rule(),
            matrix_view(&lists) == decoded(all.take(k as int), rule),
        decreases rows.len() - k,
    {
        proof {
            lemma_decoded_step(all, rule, k as int);
            assert(all[k as int] == rows@[k as int]@);
        }
        let ghost before = matrix_view(&lists);
        let row = copy_row(&rows[k]);
        let list = if as_weights { parse_edge_weight(row) } else { parse_tour(row) };
        match list {
            Some(l) => {
                lists.push(l);
                proof {
                    assert(matrix_view(&lists) =~= before.push(l@));
                }
            },
            None => {},
        }
        k += 1;
    }
    assert(all.take(rows.len() as int) =~= all);
    lists
}

} // verus!
