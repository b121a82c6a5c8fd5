//! Route construction for the capacitated vehicle routing problem: a reader
//! for TSPLIB-style instance text, a normalised distance model, and the
//! savings and sweep heuristics with their route cost.

pub mod algorithm_interface;
pub mod model;
pub mod parser;
pub mod savings_algorithm;
pub mod sweep_algorithm;
pub mod tsplib_parser;
