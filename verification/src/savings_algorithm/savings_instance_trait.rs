//! What the savings heuristic asks of an instance.

use vstd::prelude::*;
use crate::algorithm_interface::SolveError;
use crate::savings_algorithm::ordering::Saving;

verus! {

/// An instance that the savings heuristic can solve.
///
/// What the methods return is said by `savings`, `capacity`, `nodes_list`
/// and `nodes_demand`, which an implementation states together with its
/// methods; where it states none of them, they have the values given here.
pub trait SavingsInstanceTrait {
    /// What `compute_savings` returns.
    open spec fn savings(&self) -> Result<Seq<Saving>, SolveError> {
        Err(SolveError::Unsupported)
    }

    /// What `get_capacity` returns.
    open spec fn capacity(&self) -> usize {
        0
    }

    /// What `get_nodes_list` returns.
    open spec fn nodes_list(&self) -> Seq<usize> {
        Seq::empty()
    }

    /// What `get_nodes_demand` returns.
    open spec fn nodes_demand(&self) -> Seq<usize> {
        Seq::empty()
    }

    /// For each pair of customers what is saved by serving them on one
    /// route, or why the savings cannot be had.
    fn compute_savings(&self) -> (savings: Result<Vec<Saving>, SolveError>)
        ensures
            savings_result_view(savings) == self.savings(),
    ;

    /// What a vehicle holds.
    fn get_capacity(&self) -> (capacity: usize)
        ensures
            capacity == self.capacity(),
    ;

    /// The nodes: 0 for the depot, and then the customers by their number.
    fn get_nodes_list(&self) -> (nodes: Vec<usize>)
        ensures
            nodes@ == self.nodes_list(),
    ;

    /// The demand of each node.
    fn get_nodes_demand(&self) -> (demands: Vec<usize>)
        ensures
            demands@ == self.nodes_demand(),
    ;
}

/// A list of savings, or the reason why there is none, with the list as a
/// sequence.
pub open spec fn savings_result_view(savings: Result<Vec<Saving>, SolveError>) -> Result<
    Seq<Saving>,
    SolveError,
> {
    match savings {
        Ok(list) => Ok(list@),
        Err(e) => Err(e),
    }
}

} // verus!
