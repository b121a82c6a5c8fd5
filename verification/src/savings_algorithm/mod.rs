//! The savings heuristic of Clarke and Wright.

pub mod merge;
pub mod ordering;
pub mod savings_algorithm_imp;
pub mod savings_instance_trait;
