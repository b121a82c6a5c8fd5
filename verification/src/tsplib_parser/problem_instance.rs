//! An instance as the text describes it: the header and the data sections.

use vstd::prelude::*;
use crate::model::layout::matrix_view;
use crate::tsplib_parser::custom_types::{Coord, EdgeData, EdgeModel, Node};
use crate::tsplib_parser::keyword_values::{
    DISPLAY_DATE_TYPE, EDGE_DATA_FORMAT, EDGE_WEIGHT_FORMAT, EDGE_WEIGHT_TYPE, NODE_COORD_TYPE,
    TYPE,
};

verus! {

/// The header of an instance.
#[derive(Clone, Debug)]
pub struct Specification {
    /// The name of the instance.
    pub name: String,
    /// What kind of problem it is.
    pub data_type: TYPE,
    /// The comments, in the order of the text.
    pub comment: Vec<String>,
    /// The number of nodes, the depot counted; at least 1.
    pub dimension: usize,
    /// What a vehicle holds; more than 0.
    pub capacity: usize,
    /// How the weight of an edge is obtained.
    pub edge_weight_type: EDGE_WEIGHT_TYPE,
    /// How the explicit weights are laid out, where the header says so.
    pub edge_weight_format: Option<EDGE_WEIGHT_FORMAT>,
    /// How the edges are listed, where the header says so.
    pub edge_data_format: Option<EDGE_DATA_FORMAT>,
    /// How a picture of the nodes can be obtained.
    pub display_data_type: DISPLAY_DATE_TYPE,
    /// Whether the nodes have coordinates.
    pub node_coord_type: NODE_COORD_TYPE,
}

/// The data sections of an instance. A section that the text does not hold
/// is `None`.
#[derive(Clone, Debug)]
pub struct Data {
    /// The coordinates; entry `k` belongs to node `k`.
    pub node_coord_section: Option<Vec<Coord>>,
    /// The depots, as the text numbers them.
    pub depot_section: Option<Vec<Node>>,
    /// The demands; entry `k` belongs to node `k`, and holds the number that
    /// the text gives the node and its demand.
    pub demand_section: Option<Vec<(Node, usize)>>,
    /// The edges of the graph.
    pub edge_data_section: Option<Vec<EdgeData>>,
    /// The edges that every tour must hold.
    pub fixed_edges_section: Option<Vec<EdgeData>>,
    /// The places of the nodes in a picture, row by row as the text gives
    /// them.
    pub display_data_section: Option<Vec<Coord>>,
    /// The tours.
    pub tour_section: Option<Vec<Vec<Node>>>,
    /// The full matrix of the explicit weights.
    pub edge_weight_section: Option<Vec<Vec<usize>>>,
}

/// An instance: its header and its data.
#[derive(Clone, Debug)]
pub struct TSPInstance {
    /// The header.
    pub specification: Specification,
    /// The data sections.
    pub data: Data,
}

/// What a header holds.
pub struct SpecificationModel {
    pub name: Seq<char>,
    pub data_type: TYPE,
    pub comment: Seq<Seq<char>>,
    pub dimension: usize,
    pub capacity: usize,
    pub edge_weight_type: EDGE_WEIGHT_TYPE,
    pub edge_weight_format: Option<EDGE_WEIGHT_FORMAT>,
    pub edge_data_format: Option<EDGE_DATA_FORMAT>,
    pub display_data_type: DISPLAY_DATE_TYPE,
    pub node_coord_type: NODE_COORD_TYPE,
}

/// What the data sections hold.
pub struct DataModel {
    pub node_coord_section: Option<Seq<Coord>>,
    pub depot_section: Option<Seq<Node>>,
    pub demand_section: Option<Seq<(Node, usize)>>,
    pub edge_data_section: Option<Seq<EdgeModel>>,
    pub fixed_edges_section: Option<Seq<EdgeModel>>,
    pub display_data_section: Option<Seq<Coord>>,
    pub tour_section: Option<Seq<Seq<Node>>>,
    pub edge_weight_section: Option<Seq<Seq<usize>>>,
}

/// What an instance holds.
pub struct InstanceModel {
    pub specification: SpecificationModel,
    pub data: DataModel,
}

/// The strings as sequences of characters.
pub open spec fn strings_view(strings: &Vec<String>) -> Seq<Seq<char>> {
    Seq::new(strings@.len(), |k: int| strings@[k]@)
}

/// The rows of an edge section as what they hold.
pub open spec fn edges_view(edges: &Vec<EdgeData>) -> Seq<EdgeModel> {
    Seq::new(edges@.len(), |k: int| edges@[k]@)
}

impl View for Specification {
    type V = SpecificationModel;

    open spec fn view(&self) -> SpecificationModel {
        SpecificationModel {
            name: self.name@,
            data_type: self.data_type,
            comment: strings_view(&self.comment),
            dimension: self.dimension,
            capacity: self.capacity,
            edge_weight_type: self.edge_weight_type,
            edge_weight_format: self.edge_weight_format,
            edge_data_format: self.edge_data_format,
            display_data_type: self.display_data_type,
            node_coord_type: self.node_coord_type,
        }
    }
}

impl View for Data {
    type V = DataModel;

    open spec fn view(&self) -> DataModel {
        DataModel {
            node_coord_section: match self.node_coord_section {
                Some(v) => Some(v@),
                None => None,
            },
            depot_section: match self.depot_section {
                Some(v) => Some(v@),
                None => None,
            },
            demand_section: match self.demand_section {
                Some(v) => Some(v@),
                None => None,
            },
            edge_data_section: match self.edge_data_section {
                Some(v) => Some(edges_view(&v)),
                None => None,
            },
            fixed_edges_section: match self.fixed_edges_section {
                Some(v) => Some(edges_view(&v)),
                None => None,
            },
            display_data_section: match self.display_data_section {
                Some(v) => Some(v@),
                None => None,
            },
            tour_section: match self.tour_section {
                Some(v) => Some(matrix_view(&v)),
                None => None,
            },
            edge_weight_section: match self.edge_weight_section {
                Some(v) => Some(matrix_view(&v)),
                None => None,
            },
        }
    }
}

impl View for TSPInstance {
    type V = InstanceModel;

    open spec fn view(&self) -> InstanceModel {
        InstanceModel { specification: self.specification@, data: self.data@ }
    }
}

} // verus!
