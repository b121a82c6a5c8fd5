//! A problem as a record whose fields are set and read one by one.

use vstd::prelude::*;
use crate::model::Graph;
use crate::tsplib_parser::keyword_values::{
    DISPLAY_DATE_TYPE, EDGE_DATA_FORMAT, EDGE_WEIGHT_FORMAT, EDGE_WEIGHT_TYPE, NODE_COORD_TYPE,
    TYPE,
};

verus! {

/// A problem: the fields of its header, and its graph.
pub struct TspProblem {
    /// The name of the problem.
    pub name: String,
    /// What kind of problem it is.
    pub data_type: TYPE,
    /// A comment on the problem.
    pub comment: String,
    /// The number of nodes.
    pub dimension: u8,
    /// How the weight of an edge is obtained.
    pub edge_weight_type: EDGE_WEIGHT_TYPE,
    /// How explicit weights are laid out.
    pub edge_weight_format: EDGE_WEIGHT_FORMAT,
    /// How the edges are listed.
    pub edge_data_format: EDGE_DATA_FORMAT,
    /// How a picture of the nodes can be obtained.
    pub display_data_type: DISPLAY_DATE_TYPE,
    /// Whether the nodes have coordinates.
    pub node_coord_type: NODE_COORD_TYPE,
    /// The graph of the problem.
    pub graph_instance: Graph,
}

impl TspProblem {
    /// Sets the name, and nothing else.
    pub fn set_name(&mut self, _name: String)
        ensures
            *final(self) == (TspProblem { name: _name, ..*old(self) }),
    {
        self.name = _name;
    }

    /// Sets the kind of problem, and nothing else.
    pub fn set_data_type(&mut self, _type: TYPE)
        ensures
            *final(self) == (TspProblem { data_type: _type, ..*old(self) }),
    {
        self.data_type = _type;
    }

    /// Sets the comment, and nothing else.
    pub fn set_comment(&mut self, _comment: String)
        ensures
            *final(self) == (TspProblem { comment: _comment, ..*old(self) }),
    {
        self.comment = _comment;
    }

    /// Sets the number of nodes, and nothing else.
    pub fn set_dimension(&mut self, _dim: u8)
        ensures
            *final(self) == (TspProblem { dimension: _dim, ..*old(self) }),
    {
        self.dimension = _dim;
    }

    /// Sets the weight type, and nothing else.
    pub fn set_edge_weight_type(&mut self, _edge_w_t: EDGE_WEIGHT_TYPE)
        ensures
            *final(self) == (TspProblem { edge_weight_type: _edge_w_t, ..*old(self) }),
    {
        self.edge_weight_type = _edge_w_t;
    }

    /// Sets the layout of the weights, and nothing else.
    pub fn set_edge_weight_format(&mut self, _edge_w_f: EDGE_WEIGHT_FORMAT)
        ensures
            *final(self) == (TspProblem { edge_weight_format: _edge_w_f, ..*old(self) }),
    {
        self.edge_weight_format = _edge_w_f;
    }

    /// Sets the format of the edges, and nothing else.
    pub fn set_edge_data_format(&mut self, _edge_d_f: EDGE_DATA_FORMAT)
        ensures
            *final(self) == (TspProblem { edge_data_format: _edge_d_f, ..*old(self) }),
    {
        self.edge_data_format = _edge_d_f;
    }

    /// Sets the display type, and nothing else.
    pub fn set_display_data_type(&mut self, _display_d_t: DISPLAY_DATE_TYPE)
        ensures
            *final(self) == (TspProblem { display_data_type: _display_d_t, ..*old(self) }),
    {
        self.display_data_type = _display_d_t;
    }

    /// Sets the coordinate type, and nothing else.
    pub fn set_node_coord_type(&mut self, _node_c_t: NODE_COORD_TYPE)
        ensures
            *final(self) == (TspProblem { node_coord_type: _node_c_t, ..*old(self) }),
    {
        self.node_coord_type = _node_c_t;
    }

    /// Sets the graph, and nothing else.
    pub fn set_graph(&mut self, graph: Graph)
        ensures
            *final(self) == (TspProblem { graph_instance: graph, ..*old(self) }),
    {
        self.graph_instance = graph;
    }

    /// The name.
    pub fn get_name(&self) -> (name: &str)
        ensures
            name@ == self.name@,
    {
        self.name.as_str()
    }

    /// The kind of problem.
    pub fn get_data_type(&self) -> (kind: &TYPE)
        ensures
            *kind == self.data_type,
    {
        &self.data_type
    }

    /// The comment.
    pub fn get_comment(&self) -> (comment: &str)
        ensures
            comment@ == self.comment@,
    {
        self.comment.as_str()
    }

    /// The number of nodes.
    pub fn get_dimension(&self) -> (dimension: u8)
        ensures
            dimension == self.dimension,
    {
        self.dimension
    }

    /// The weight type.
    pub fn get_edge_weight_type(&self) -> (kind: &EDGE_WEIGHT_TYPE)
        ensures
            *kind == self.edge_weight_type,
    {
        &self.edge_weight_type
    }

    /// The layout of the weights.
    pub fn get_edge_weight_format(&self) -> (format: &EDGE_WEIGHT_FORMAT)
        ensures
            *format == self.edge_weight_format,
    {
        &self.edge_weight_format
    }

    /// The format of the edges.
    pub fn get_edge_data_format(&self) -> (format: &EDGE_DATA_FORMAT)
        ensures
            *format == self.edge_data_format,
    {
        &self.edge_data_format
    }

    /// The display type.
    pub fn get_display_data_type(&self) -> (kind: &DISPLAY_DATE_TYPE)
        ensures
            *kind == self.display_data_type,
    {
        &self.display_data_type
    }

    /// The coordinate type.
    pub fn get_node_coord_type(&self) -> (kind: &NODE_COORD_TYPE)
        ensures
            *kind == self.node_coord_type,
    {
        &self.node_coord_type
    }

    /// The graph.
    pub fn get_graph(&self) -> (graph: &Graph)
        ensures
            *graph == self.graph_instance,
    {
        &self.graph_instance
    }
}

} // verus!
