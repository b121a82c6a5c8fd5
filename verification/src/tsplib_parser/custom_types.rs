//! The types of the rows of an instance's data sections.

use vstd::prelude::*;

verus! {

/// A node, by its number. Node 0 is the depot.
pub type Node = usize;

/// An edge, by its two ends.
pub type Edge = (Node, Node);

/// An adjacency list: a node followed by its neighbours.
pub type Adj = Vec<Node>;

/// The number of units that make up one: a number is held as a whole number
/// of millionths.
pub const UNITS_PER_ONE: i64 = 1_000_000;

/// The largest magnitude, in units, that a number of a data section can
/// have: a thousand million.
pub const MAX_UNITS: i64 = 1_000_000_000_000_000;

/// A row of the coordinate section: the node's number as the text gives it
/// (counted from 1), and its coordinates in millionths.
#[derive(Clone, Copy, Debug, PartialEq, Eq)]
pub enum Coord {
    /// A node in the plane: number, x, y.
    Coord2d((usize, i64, i64)),
    /// A node in space: number, x, y, z.
    Coord3d((usize, i64, i64, i64)),
}

/// A row of an edge section.
#[derive(Debug, PartialEq, Eq)]
pub enum EdgeData {
    /// One edge.
    Edge((Node, Node)),
    /// A node followed by its neighbours.
    Adj(Vec<Node>),
}

/// What a row of an edge section holds.
pub enum EdgeModel {
    /// One edge.
    Edge(Node, Node),
    /// A node followed by its neighbours.
    Adj(Seq<Node>),
}

impl View for EdgeData {
    type V = EdgeModel;

    open spec fn view(&self) -> EdgeModel {
        match *self {
            EdgeData::Edge((a, b)) => EdgeModel::Edge(a, b),
            EdgeData::Adj(nodes) => EdgeModel::Adj(nodes@),
        }
    }
}

impl Clone for EdgeData {
    fn clone(&self) -> (copy: Self)
        ensures
            copy@ == self@,
    {
        match self {
            EdgeData::Edge((a, b)) => EdgeData::Edge((*a, *b)),
            EdgeData::Adj(nodes) => {
                let copy = nodes.clone();
                assert(copy@ =~= nodes@);
                EdgeData::Adj(copy)
            },
        }
    }
}

impl Coord {
    /// The node's number as the text gives it.
    pub open spec fn id(self) -> usize {
        match self {
            Coord::Coord2d((id, _, _)) => id,
            Coord::Coord3d((id, _, _, _)) => id,
        }
    }

    /// The first coordinate, in millionths.
    pub open spec fn x(self) -> i64 {
        match self {
            Coord::Coord2d((_, x, _)) => x,
            Coord::Coord3d((_, x, _, _)) => x,
        }
    }

    /// The second coordinate, in millionths.
    pub open spec fn y(self) -> i64 {
        match self {
            Coord::Coord2d((_, _, y)) => y,
            Coord::Coord3d((_, _, y, _)) => y,
        }
    }

    /// Both coordinates of the plane are within `MAX_UNITS` of zero.
    pub open spec fn in_range(self) -> bool {
        &&& -MAX_UNITS <= self.x() <= MAX_UNITS
        &&& -MAX_UNITS <= self.y() <= MAX_UNITS
    }

    /// The node's number as the text gives it.
    pub fn get_id(&self) -> (id: usize)
        ensures
            id == self.id(),
    {
        match self {
            Coord::Coord2d((id, _, _)) => *id,
            Coord::Coord3d((id, _, _, _)) => *id,
        }
    }

    /// The first coordinate, in millionths.
    pub fn get_x(&self) -> (x: i64)
        ensures
            x == self.x(),
    {
        match self {
            Coord::Coord2d((_, x, _)) => *x,
            Coord::Coord3d((_, x, _, _)) => *x,
        }
    }

    /// The second coordinate, in millionths.
    pub fn get_y(&self) -> (y: i64)
        ensures
            y == self.y(),
    {
        match self {
            Coord::Coord2d((_, _, y)) => *y,
            Coord::Coord3d((_, _, y, _)) => *y,
        }
    }
}

} // verus!
