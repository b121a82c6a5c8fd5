//! The sweep heuristic: the customers are put into one order and the order
//! is cut into routes.

pub mod binning;
pub mod cluster;
pub mod polar;
pub mod sweep_algorithm_imp;
pub mod sweep_instance_trait;
