//! The values that the keywords of an instance's header can take.

use vstd::prelude::*;

verus! {

/// What kind of problem an instance describes.
#[allow(non_camel_case_types)]
#[derive(Clone, Copy, Debug, PartialEq, Eq, Structural)]
pub enum TYPE {
    /// Symmetric travelling salesman problem.
    TSP,
    /// Asymmetric travelling salesman problem.
    ATSP,
    /// Sequential ordering problem.
    SOP,
    /// Hamiltonian cycle problem.
    HCP,
    /// Capacitated vehicle routing problem.
    CVRP,
    /// A collection of tours.
    TOUR,
}

/// How the weight of an edge is obtained.
#[allow(non_camel_case_types)]
#[derive(Clone, Copy, Debug, PartialEq, Eq, Structural)]
pub enum EDGE_WEIGHT_TYPE {
    /// Weights are listed explicitly in the weight section.
    EXPLICIT,
    /// Euclidean distance in the plane, rounded to the nearest integer.
    EUC_2D,
    /// Euclidean distance in space.
    EUC_3D,
    /// Maximum distance in the plane.
    MAX_2D,
    /// Maximum distance in space.
    MAX_3D,
    /// Manhattan distance in the plane.
    MAN_2D,
    /// Manhattan distance in space.
    MAN_3D,
    /// Euclidean distance in the plane, rounded up.
    CEIL_2D,
    /// Geographical distance on the sphere.
    GEO,
    /// The pseudo-Euclidean distance of the att problems.
    ATT,
    /// Crystallography distance, first version.
    XRAY1,
    /// Crystallography distance, second version.
    XRAY2,
    /// A distance documented elsewhere.
    SPECIAL,
}

impl EDGE_WEIGHT_TYPE {
    /// Whether the weights are listed explicitly.
    pub fn is_explicit(self) -> (explicit: bool)
        ensures
            explicit == (self == EDGE_WEIGHT_TYPE::EXPLICIT),
    {
        match self {
            EDGE_WEIGHT_TYPE::EXPLICIT => true,
            _ => false,
        }
    }
}

/// How the explicit weights are laid out in the weight section.
#[allow(non_camel_case_types)]
#[derive(Clone, Copy, Debug, PartialEq, Eq, Structural)]
pub enum EDGE_WEIGHT_FORMAT {
    /// Weights are given by a function: the section holds nothing.
    FUNCTION,
    /// The whole matrix, row by row.
    FULL_MATRIX,
    /// Upper triangle, row by row, without the diagonal.
    UPPER_ROW,
    /// Lower triangle, row by row, without the diagonal.
    LOWER_ROW,
    /// Upper triangle, row by row, with the diagonal.
    UPPER_DIAG_ROW,
    /// Lower triangle, row by row, with the diagonal.
    LOWER_DIAG_ROW,
    /// Upper triangle, column by column, without the diagonal.
    UPPER_COL,
    /// Lower triangle, column by column, without the diagonal.
    LOWER_COL,
    /// Upper triangle, column by column, with the diagonal.
    UPPER_DIAG_COL,
    /// Lower triangle, column by column, with the diagonal.
    LOWER_DIAG_COL,
}

/// How the edges of a graph are listed.
#[allow(non_camel_case_types)]
#[derive(Clone, Copy, Debug, PartialEq, Eq, Structural)]
pub enum EDGE_DATA_FORMAT {
    /// One edge per row.
    EDGE_LIST,
    /// One adjacency list per row.
    ADJ_LIST,
}

/// Whether, and in how many dimensions, the nodes have coordinates.
#[allow(non_camel_case_types)]
#[derive(Clone, Copy, Debug, PartialEq, Eq, Structural)]
pub enum NODE_COORD_TYPE {
    /// Coordinates in the plane.
    TWOD_COORDS,
    /// Coordinates in space.
    THREED_COORDS,
    /// No coordinates.
    NO_COORDS,
}

/// How a picture of the nodes can be obtained.
#[allow(non_camel_case_types)]
#[derive(Clone, Copy, Debug, PartialEq, Eq, Structural)]
pub enum DISPLAY_DATE_TYPE {
    /// The picture follows the node coordinates.
    COORD_DISPLAY,
    /// Coordinates for the picture are given.
    TWOD_DISPLAY,
    /// No picture is possible.
    NO_DISPLAY,
}

} // verus!
