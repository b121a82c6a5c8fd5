//! What the sweep heuristic asks of an instance.

use vstd::prelude::*;
use crate::algorithm_interface::SolveError;

verus! {

/// An instance that the sweep heuristic can solve.
///
/// What the methods return is said by `node_order`, `capacity`,
/// `nodes_demand` and `node_count`, which an implementation states together
/// with its methods; where it states none of them, they have the values
/// given here.
pub trait SweepInstanceTrait {
    /// What `order_nodes` returns for a seed.
    open spec fn node_order(&self, seed: u64) -> Result<Seq<usize>, SolveError> {
        Err(SolveError::Unsupported)
    }

    /// What `get_capacity` returns.
    open spec fn capacity(&self) -> usize {
        0
    }

    /// What `get_nodes_demand` returns.
    open spec fn nodes_demand(&self) -> Seq<usize> {
        Seq::empty()
    }

    /// What `get_node_count` returns.
    open spec fn node_count(&self) -> usize {
        0
    }

    /// The customers in the order in which they are put on routes, or why
    /// there is no such order. Where the order depends on a draw, the draw
    /// is made from `seed`.
    fn order_nodes(&self, seed: u64) -> (order: Result<Vec<usize>, SolveError>)
        ensures
            order_result_view(order) == self.node_order(seed),
    ;

    /// What a vehicle holds.
    fn get_capacity(&self) -> (capacity: usize)
        ensures
            capacity == self.capacity(),
    ;

    /// The demand of each node.
    fn get_nodes_demand(&self) -> (demands: Vec<usize>)
        ensures
            demands@ == self.nodes_demand(),
    ;

    /// The number of nodes, the depot counted.
    fn get_node_count(&self) -> (count: usize)
        ensures
            count == self.node_count(),
    ;
}

/// An order of nodes, or the reason why there is none, with the order as a
/// sequence.
pub open spec fn order_result_view(order: Result<Vec<usize>, SolveError>) -> Result<
    Seq<usize>,
    SolveError,
> {
    match order {
        Ok(list) => Ok(list@),
        Err(e) => Err(e),
    }
}

} // verus!
