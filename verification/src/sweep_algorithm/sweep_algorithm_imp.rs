//! The sweep heuristic on an instance.

use vstd::prelude::*;
use crate::algorithm_interface::{CVRPSolver, SolveError};
use crate::sweep_algorithm::binning::{sweep_routes, sweep_solution};
use crate::sweep_algorithm::sweep_instance_trait::SweepInstanceTrait;

verus! {

/// The sweep heuristic on an instance, with the seed of its draws.
pub struct SweepSolver<'a> {
    /// The instance to solve.
    pub instance: &'a dyn SweepInstanceTrait,
    /// The seed from which the instance makes its draws.
    pub seed: u64,
}

impl<'a> SweepSolver<'a> {
    /// Gives the solver another instance to solve.
    pub fn add_instance(&mut self, i: &'a dyn SweepInstanceTrait)
        ensures
            *final(self) == (SweepSolver { instance: i, seed: old(self).seed }),
    {
        let seed = self.seed;
        *self = SweepSolver { instance: i, seed };
    }
}

impl<'a> CVRPSolver for SweepSolver<'a> {
    /// The routes of the sweep heuristic for the order that the instance
    /// gives for the seed. There are none where the instance has no order.
    open spec fn solution(&self) -> Result<Seq<Seq<usize>>, SolveError> {
        match self.instance.node_order(self.seed) {
            Err(e) => Err(e),
            Ok(order) => sweep_solution(
                order,
                self.instance.nodes_demand(),
                self.instance.capacity(),
                self.instance.node_count() as int,
            ),
        }
    }

    open spec fn demands(&self) -> Seq<usize> {
        self.instance.nodes_demand()
    }

    open spec fn capacity(&self) -> usize {
        self.instance.capacity()
    }

    open spec fn node_count(&self) -> int {
        self.instance.node_count() as int
    }

    fn solve(&self) -> (result: Result<Vec<Vec<usize>>, SolveError>) {
        let demands = self.instance.get_nodes_demand();
        let capacity = self.instance.get_capacity();
        let node_count = self.instance.get_node_count();
        match self.instance.order_nodes(self.seed) {
            Err(e) => Err(e),
            Ok(order) => sweep_routes(&order, &demands, capacity, node_count),
        }
    }
}

} // verus!
