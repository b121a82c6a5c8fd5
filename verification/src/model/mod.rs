//! The normalised view of an instance that the heuristics work on.

pub mod cost;
pub mod distance;
pub mod joined;
pub mod layout;
pub mod random;
pub mod sorting;
pub mod source;
pub mod utils;

use vstd::prelude::*;
use crate::algorithm_interface::{demands_fit, is_customer_order, CVRPSolver, SolveError};
use crate::model::cost::{cost_of_routes, cost_solution};
use crate::model::distance::Rounding;
use crate::model::layout::{is_square, matrix_view};
use crate::model::random::{pick_customer, seeded_customer};
use crate::model::source::{savings_list, DistanceSource, SourceModel};
use crate::model::utils::{compute_savings_coord, compute_savings_fmatrix, has_square_shape};
use crate::savings_algorithm::ordering::Saving;
use crate::savings_algorithm::savings_instance_trait::SavingsInstanceTrait;
use crate::sweep_algorithm::cluster::{
    cluster_order, lemma_cluster_order_is_customer_order, order_by_clusters,
};
use crate::sweep_algorithm::polar::{
    lemma_polar_order_is_customer_order, order_by_angle, polar_order,
};
use crate::sweep_algorithm::sweep_instance_trait::SweepInstanceTrait;
use crate::tsplib_parser::custom_types::{Coord, MAX_UNITS};
use crate::tsplib_parser::keyword_values::EDGE_WEIGHT_TYPE;
use crate::tsplib_parser::laws::is_consistent;
use crate::tsplib_parser::problem_instance::{Data, InstanceModel, TSPInstance};
use crate::savings_algorithm::savings_algorithm_imp::{is_node_list, SavingsSolver};
use crate::sweep_algorithm::sweep_algorithm_imp::SweepSolver;
use crate::algorithm_interface::routes_view;

verus! {

/// The graph of a problem: its data sections.
pub type Graph = Data;

/// An instance as the heuristics see it.
pub struct GraphInstance {
    /// The instance as the text describes it.
    pub instance: TSPInstance,
}

/// How the planar distance of a weight type is rounded; none for a type that
/// is not planar Euclidean. The third coordinate of the spatial type is left
/// out.
pub open spec fn rounding_of(kind: EDGE_WEIGHT_TYPE) -> Option<Rounding> {
    match kind {
        EDGE_WEIGHT_TYPE::EUC_2D => Some(Rounding::Nearest),
        EDGE_WEIGHT_TYPE::EUC_3D => Some(Rounding::Nearest),
        EDGE_WEIGHT_TYPE::CEIL_2D => Some(Rounding::Ceiling),
        _ => None,
    }
}

/// The table holds one row for each of the `n` nodes, and each coordinate
/// is in range.
pub open spec fn coords_fit(coords: Seq<Coord>, n: int) -> bool {
    &&& coords.len() == n
    &&& forall|k: int| 0 <= k < coords.len() ==> (#[trigger] coords[k]).in_range()
}

/// Where the distances of an instance come from: the matrix of an instance
/// with explicit weights, and the coordinate table of one with planar
/// Euclidean weights. Other weights are not supported, nor explicit weights
/// without a matrix; a matrix or table that does not fit the dimension is
/// malformed.
pub open spec fn instance_source(inst: InstanceModel) -> Result<SourceModel, SolveError> {
    let n = inst.specification.dimension as int;
    if inst.specification.edge_weight_type == EDGE_WEIGHT_TYPE::EXPLICIT {
        match inst.data.edge_weight_section {
            None => Err(SolveError::Unsupported),
            Some(m) => if is_square(m, n) {
                Ok(SourceModel::Matrix(m))
            } else {
                Err(SolveError::Malformed)
            },
        }
    } else {
        match rounding_of(inst.specification.edge_weight_type) {
            None => Err(SolveError::Unsupported),
            Some(rounding) => match inst.data.node_coord_section {
                None => Err(SolveError::Malformed),
                Some(coords) => if coords_fit(coords, n) {
                    Ok(SourceModel::Coordinates(coords, rounding))
                } else {
                    Err(SolveError::Malformed)
                },
            },
        }
    }
}

/// The savings of an instance.
pub open spec fn instance_savings(inst: InstanceModel) -> Result<Seq<Saving>, SolveError> {
    match instance_source(inst) {
        Ok(src) => Ok(savings_list(src)),
        Err(e) => Err(e),
    }
}

/// The demand of each node of an instance; nothing where the instance has
/// no demand section.
pub open spec fn instance_demands(inst: InstanceModel) -> Seq<usize> {
    match inst.data.demand_section {
        Some(rows) => Seq::new(rows.len(), |k: int| rows[k].1),
        None => Seq::empty(),
    }
}

/// The order of the customers of an instance for the sweep: around the
/// depot where the weights are not explicit and the nodes have coordinates,
/// and by clusters, from a customer drawn from the seed, where the weights
/// are explicit.
pub open spec fn instance_order(inst: InstanceModel, seed: u64) -> Result<Seq<usize>, SolveError> {
    let n = inst.specification.dimension;
    if inst.specification.edge_weight_type == EDGE_WEIGHT_TYPE::EXPLICIT {
        match inst.data.edge_weight_section {
            None => Err(SolveError::Unsupported),
            Some(m) => if !is_square(m, n as int) {
                Err(SolveError::Malformed)
            } else if n < 2 {
                Ok(Seq::empty())
            } else {
                Ok(cluster_order(m, seeded_customer(seed, n) as int))
            },
        }
    } else {
        match inst.data.node_coord_section {
            None => if rounding_of(inst.specification.edge_weight_type) is Some {
                Err(SolveError::Malformed)
            } else {
                Err(SolveError::Unsupported)
            },
            Some(coords) => if coords_fit(coords, n as int) {
                Ok(polar_order(coords))
            } else {
                Err(SolveError::Malformed)
            },
        }
    }
}

/// The nodes by their number.
pub open spec fn node_numbers(n: usize) -> Seq<usize> {
    Seq::new(n as nat, |k: int| k as usize)
}

/// How the planar distance of a weight type is rounded.
pub fn rounding_for(kind: EDGE_WEIGHT_TYPE) -> (rounding: Option<Rounding>)
    ensures
        rounding == rounding_of(kind),
{
    match kind {
        EDGE_WEIGHT_TYPE::EUC_2D => Some(Rounding::Nearest),
        EDGE_WEIGHT_TYPE::EUC_3D => Some(Rounding::Nearest),
        EDGE_WEIGHT_TYPE::CEIL_2D => Some(Rounding::Ceiling),
        _ => None,
    }
}

/// Whether the table holds one row for each of the `n` nodes, with each
/// coordinate in range.
pub fn check_coords_fit(coords: &Vec<Coord>, n: usize) -> (ok: bool)
    ensures
        ok == coords_fit(coords@, n as int),
{
    if coords.len() != n {
        return false;
    }
    let mut k: usize = 0;
    while k < n
        invariant
            k <= n == coords@.len(),
            forall|q: int| 0 <= q < k ==> (#[trigger] coords@[q]).in_range(),
        decreases n - k,
    {
        let x = coords[k].get_x();
        let y = coords[k].get_y();
        if x < -MAX_UNITS || x > MAX_UNITS || y < -MAX_UNITS || y > MAX_UNITS {
            assert(!coords@[k as int].in_range());
            return false;
        }
        k += 1;
    }
    true
}

impl GraphInstance {
    /// Where the distances of the instance come from.
    pub fn distance_source(&self) -> (source: Result<DistanceSource<'_>, SolveError>)
        ensures
            match source {
                Ok(src) => instance_source(self.instance@) == Ok::<SourceModel, SolveError>(src@)
                    && src@.is_well_formed() && src@.node_count()
                    == self.instance.specification.dimension,
                Err(e) => instance_source(self.instance@) == Err::<SourceModel, SolveError>(e),
            },
    {
        let n = self.instance.specification.dimension;
        if self.instance.specification.edge_weight_type.is_explicit() {
            match &self.instance.data.edge_weight_section {
                None => Err(SolveError::Unsupported),
                Some(m) => if has_square_shape(m, n) {
                    let source = DistanceSource::Matrix(m);
                    proof {
                        assert(source@ == SourceModel::Matrix(matrix_view(m)));
                        assert(self.instance@.data.edge_weight_section == Some(matrix_view(m)));
                    }
                    Ok(source)
                } else {
                    Err(SolveError::Malformed)
                },
            }
        } else {
            match rounding_for(self.instance.specification.edge_weight_type) {
                None => Err(SolveError::Unsupported),
                Some(rounding) => match &self.instance.data.node_coord_section {
                    None => Err(SolveError::Malformed),
                    Some(coords) => {
                        proof {
                            assert(self.instance@.data.node_coord_section == Some(coords@));
                        }
                        if check_coords_fit(coords, n) {
                            let source = DistanceSource::Coordinates(coords, rounding);
                            proof {
                                assert(source@ == SourceModel::Coordinates(coords@, rounding));
                                assert(source@->Coordinates_0 == coords@);
                            }
                            Ok(source)
                        } else {
                            Err(SolveError::Malformed)
                        }
                    },
                },
            }
        }
    }
}

impl SavingsInstanceTrait for GraphInstance {
    open spec fn savings(&self) -> Result<Seq<Saving>, SolveError> {
        instance_savings(self.instance@)
    }

    open spec fn capacity(&self) -> usize {
        self.instance.specification.capacity
    }

    open spec fn nodes_list(&self) -> Seq<usize> {
        node_numbers(self.instance.specification.dimension)
    }

    open spec fn nodes_demand(&self) -> Seq<usize> {
        instance_demands(self.instance@)
    }

    fn compute_savings(&self) -> (savings: Result<Vec<Saving>, SolveError>) {
        let node_number = self.instance.specification.dimension;
        match self.distance_source() {
            Err(e) => Err(e),
            Ok(source) => {
                let mut savings: Vec<Saving> = Vec::new();
                match source {
                    DistanceSource::Matrix(_) => {
                        compute_savings_fmatrix(
                            &self.instance.data.edge_weight_section,
                            node_number,
                            &mut savings,
                        );
                    },
                    DistanceSource::Coordinates(coords, rounding) => {
                        proof {
                            assert(source@->Coordinates_0 == coords@);
                        }
                        compute_savings_coord(
                            &self.instance.data.node_coord_section,
                            node_number,
                            rounding,
                            &mut savings,
                        );
                    },
                }
                assert(savings@ =~= savings_list(source@));
                Ok(savings)
            },
        }
    }

    fn get_capacity(&self) -> (capacity: usize) {
        self.instance.specification.capacity
    }

    fn get_nodes_list(&self) -> (nodes: Vec<usize>) {
        let n = self.instance.specification.dimension;
        let mut nodes: Vec<usize> = Vec::new();
        let mut k: usize = 0;
        while k < n
            invariant
                k <= n,
                nodes@.len() == k,
                forall|q: int| 0 <= q < k ==> #[trigger] nodes@[q] == q,
            decreases n - k,
        {
            nodes.push(k);
            k += 1;
        }
        assert(nodes@ =~= node_numbers(n));
        nodes
    }

    fn get_nodes_demand(&self) -> (demands: Vec<usize>) {
        demands_of(&self.instance)
    }
}

/// The demand of each node of an instance; nothing where the instance has
/// no demand section.
pub fn demands_of(instance: &TSPInstance) -> (demands: Vec<usize>)
    ensures
        demands@ == instance_demands(instance@),
{
    let mut demands: Vec<usize> = Vec::new();
    match &instance.data.demand_section {
        None => {},
        Some(rows) => {
            let mut k: usize = 0;
            while k < rows.len()
                invariant
                    k <= rows.len(),
                    demands@.len() == k,
                    forall|q: int| 0 <= q < k ==> #[trigger] demands@[q] == rows@[q].1,
                decreases rows.len() - k,
            {
                demands.push(rows[k].1);
                k += 1;
            }
        },
    }
    assert(demands@ =~= instance_demands(instance@));
    demands
}

impl SweepInstanceTrait for GraphInstance {
    open spec fn node_order(&self, seed: u64) -> Result<Seq<usize>, SolveError> {
        instance_order(self.instance@, seed)
    }

    open spec fn capacity(&self) -> usize {
        self.instance.specification.capacity
    }

    open spec fn nodes_demand(&self) -> Seq<usize> {
        instance_demands(self.instance@)
    }

    open spec fn node_count(&self) -> usize {
        self.instance.specification.dimension
    }

    fn order_nodes(&self, seed: u64) -> (order: Result<Vec<usize>, SolveError>) {
        let n = self.instance.specification.dimension;
        if self.instance.specification.edge_weight_type.is_explicit() {
            match &self.instance.data.edge_weight_section {
                None => Err(SolveError::Unsupported),
                Some(m) => if !has_square_shape(m, n) {
                    Err(SolveError::Malformed)
                } else if n < 2 {
                    Ok(Vec::new())
                } else {
                    let first = pick_customer(seed, n);
                    Ok(order_by_clusters(m, first))
                },
            }
        } else {
            match &self.instance.data.node_coord_section {
                None => if rounding_for(self.instance.specification.edge_weight_type).is_some() {
                    Err(SolveError::Malformed)
                } else {
                    Err(SolveError::Unsupported)
                },
                Some(coords) => {
                    proof {
                        assert(self.instance@.data.node_coord_section == Some(coords@));
                    }
                    if check_coords_fit(coords, n) {
                        Ok(order_by_angle(coords))
                    } else {
                        Err(SolveError::Malformed)
                    }
                },
            }
        }
    }

    fn get_capacity(&self) -> (capacity: usize) {
        self.instance.specification.capacity
    }

    fn get_nodes_demand(&self) -> (demands: Vec<usize>) {
        demands_of(&self.instance)
    }

    fn get_node_count(&self) -> (count: usize) {
        self.instance.specification.dimension
    }
}

/// An instance that is consistent has a source of distances where its
/// weights are explicit and it has a matrix, and where its weights are
/// planar Euclidean and it has coordinates.
pub proof fn lemma_consistent_has_source(inst: InstanceModel)
    requires
        is_consistent(inst),
    ensures
        inst.data.edge_weight_section matches Some(m) ==> instance_source(inst) == Ok::<
            SourceModel,
            SolveError,
        >(SourceModel::Matrix(m)),
        inst.specification.edge_weight_type != EDGE_WEIGHT_TYPE::EXPLICIT ==> (rounding_of(
            inst.specification.edge_weight_type,
        ) matches Some(rounding) ==> (inst.data.node_coord_section matches Some(coords)
            ==> instance_source(inst) == Ok::<SourceModel, SolveError>(
            SourceModel::Coordinates(coords, rounding),
        ))),
{
}

/// Both heuristics give routes for an instance that is consistent, has a
/// source of distances and a demand section, and in which no customer asks
/// for more than a vehicle holds.
pub proof fn lemma_solvers_succeed(instance: &GraphInstance, seed: u64)
    requires
        is_consistent(instance.instance@),
        instance_source(instance.instance@) is Ok,
        instance.instance@.data.demand_section is Some,
        demands_fit(
            instance_demands(instance.instance@),
            instance.instance.specification.capacity as int,
            instance.instance.specification.dimension as int,
        ),
    ensures
        (SavingsSolver { instance }).solution() is Ok,
        (SweepSolver { instance, seed }).solution() is Ok,
{
    let inst = instance.instance@;
    let n = instance.instance.specification.dimension;
    assert(is_node_list(node_numbers(n)));
    assert(instance_demands(inst).len() == n);
    match instance_source(inst)->Ok_0 {
        SourceModel::Matrix(m) => {
            if n >= 2 {
                lemma_cluster_order_is_customer_order(m, seeded_customer(seed, n) as int);
            } else {
                assert(is_customer_order(Seq::<usize>::empty(), n as int));
            }
        },
        SourceModel::Coordinates(coords, _) => {
            lemma_polar_order_is_customer_order(coords);
        },
    }
}

/// The cost of the routes on an instance: the sum of the lengths of the legs
/// of all routes, each route from the depot over its customers back to the
/// depot. There is none where the instance has no source of distances, where
/// a route names something that is no node, and where the cost is larger
/// than the largest number.
pub open spec fn instance_cost(inst: InstanceModel, routes: Seq<Seq<usize>>) -> Result<
    usize,
    SolveError,
> {
    match instance_source(inst) {
        Err(e) => Err(e),
        Ok(src) => cost_solution(src, routes),
    }
}

/// The cost of the routes on an instance.
pub fn compute_cost_of_routes(instance: &GraphInstance, routes: &Vec<Vec<usize>>) -> (cost: Result<
    usize,
    SolveError,
>)
    ensures
        cost == instance_cost(instance.instance@, routes_view(routes)),
{
    match instance.distance_source() {
        Err(e) => Err(e),
        Ok(source) => cost_of_routes(&source, routes),
    }
}

} // verus!
