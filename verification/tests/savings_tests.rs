use cvrp::algorithm_interface::{CVRPSolver, SolveError};
use cvrp::model::distance::Rounding;
use cvrp::model::source::DistanceSource;
use cvrp::model::utils::{
    compute_savings_coord, compute_savings_explicit, compute_savings_fmatrix,
};
use cvrp::model::GraphInstance;
use cvrp::savings_algorithm::ordering::sort_savings_descending;
use cvrp::savings_algorithm::savings_algorithm_imp::{
    append_backward, append_forward, check_node_list, savings_routes, SavingsSolver,
};
use cvrp::savings_algorithm::savings_instance_trait::SavingsInstanceTrait;
use cvrp::tsplib_parser::custom_types::Coord;
use cvrp::tsplib_parser::parser::parse;

const ONE: i64 = 1_000_000;

/// Five nodes: the customers 1 and 2 are near each other, and so are 3 and 4.
fn paired_matrix() -> Vec<Vec<usize>> {
    vec![
        vec![0, 10, 10, 10, 10],
        vec![10, 0, 1, 20, 20],
        vec![10, 1, 0, 20, 20],
        vec![10, 20, 20, 0, 1],
        vec![10, 20, 20, 1, 0],
    ]
}

fn paired_text(capacity: usize) -> String {
    format!(
        "NAME : pairs\nTYPE : CVRP\nDIMENSION : 5\nCAPACITY : {}\nEDGE_WEIGHT_TYPE : EXPLICIT\n\
EDGE_WEIGHT_FORMAT : FULL_MATRIX\nEDGE_WEIGHT_SECTION\n\
0 10 10 10 10\n10 0 1 20 20\n10 1 0 20 20\n10 20 20 0 1\n10 20 20 1 0\n\
DEMAND_SECTION\n1 0\n2 3\n3 3\n4 3\n5 3\nDEPOT_SECTION\n1\n-1\nEOF\n",
        capacity
    )
}

fn load(route: &[usize], demands: &[usize]) -> usize {
    route.iter().map(|&c| demands[c]).sum()
}

fn assert_partition(routes: &[Vec<usize>], demands: &[usize], capacity: usize, n: usize) {
    let mut seen = vec![0usize; n];
    for route in routes {
        assert!(!route.is_empty());
        assert!(load(route, demands) <= capacity);
        for &c in route {
            assert!(1 <= c && c < n);
            seen[c] += 1;
        }
    }
    for c in 1..n {
        assert_eq!(seen[c], 1);
    }
}

#[test]
fn savings_of_a_matrix() {
    let matrix = Some(paired_matrix());
    let mut savings = vec![(9, 9, 9)];
    compute_savings_explicit(&matrix, 5, &mut savings);
    assert_eq!(
        savings,
        vec![(9, 9, 9), (1, 2, 19), (1, 3, 0), (1, 4, 0), (2, 3, 0), (2, 4, 0), (3, 4, 19)]
    );
    let mut again = Vec::new();
    compute_savings_fmatrix(&matrix, 5, &mut again);
    assert_eq!(again, savings[1..].to_vec());
    let mut none = vec![(1, 2, 3)];
    compute_savings_explicit(&None, 5, &mut none);
    assert_eq!(none, vec![(1, 2, 3)]);
}

#[test]
fn a_saving_is_never_negative() {
    // the way from 1 to 2 is longer than the way over the depot
    let matrix = vec![vec![0, 1, 1], vec![1, 0, 5], vec![1, 5, 0]];
    let source = DistanceSource::Matrix(&matrix);
    assert_eq!(source.saving(1, 2), (1, 2, 0));
    let large = vec![vec![0, usize::MAX, usize::MAX], vec![0, 0, 1], vec![0, 1, 0]];
    assert_eq!(DistanceSource::Matrix(&large).saving(1, 2), (1, 2, usize::MAX));
}

#[test]
fn savings_of_coordinates() {
    let coords = Some(vec![
        Coord::Coord2d((1, 0, 0)),
        Coord::Coord2d((2, 3 * ONE, 4 * ONE)),
        Coord::Coord2d((3, 6 * ONE, 8 * ONE)),
        Coord::Coord2d((4, -3 * ONE, -4 * ONE)),
    ]);
    let mut savings = Vec::new();
    compute_savings_coord(&coords, 4, Rounding::Nearest, &mut savings);
    // distances from the depot: 5, 10, 5; between: 5, 10, 15
    assert_eq!(savings, vec![(1, 2, 10), (1, 3, 0), (2, 3, 0)]);
    let mut none = Vec::new();
    compute_savings_coord(&None, 4, Rounding::Nearest, &mut none);
    assert!(none.is_empty());
}

#[test]
fn savings_are_sorted_from_the_largest_and_keep_their_order() {
    let savings = vec![(1, 2, 5), (1, 3, 9), (1, 4, 5), (2, 3, 0), (2, 4, 9), (3, 4, 7)];
    assert_eq!(
        sort_savings_descending(&savings),
        vec![(1, 3, 9), (2, 4, 9), (3, 4, 7), (1, 2, 5), (1, 4, 5), (2, 3, 0)]
    );
    assert_eq!(sort_savings_descending(&Vec::new()), Vec::new());
}

#[test]
fn many_savings_with_many_ties_keep_their_order() {
    // numbers that repeat often, so that most savings have many equals
    let mut savings: Vec<(usize, usize, usize)> = Vec::new();
    let mut state: usize = 12345;
    for i in 0..60_000usize {
        state = (state * 1_103_515_245 + 12_345) % 2_147_483_648;
        savings.push((i, i / 7, (state / 65_536) % 100));
    }
    let sorted = sort_savings_descending(&savings);
    let mut expected = savings.clone();
    expected.sort_by(|a, b| b.2.cmp(&a.2));
    assert_eq!(sorted, expected);
    // of equal savings the one that was listed first comes first
    for pair in sorted.windows(2) {
        assert!(pair[0].2 > pair[1].2 || (pair[0].2 == pair[1].2 && pair[0].0 < pair[1].0));
    }
    for length in 0..40usize {
        let short: Vec<(usize, usize, usize)> = savings[..length].to_vec();
        let mut expected = short.clone();
        expected.sort_by(|a, b| b.2.cmp(&a.2));
        assert_eq!(sort_savings_descending(&short), expected);
    }
}

#[test]
fn two_pairs_with_capacity_six() {
    let demands = vec![0, 3, 3, 3, 3];
    let mut savings = Vec::new();
    compute_savings_explicit(&Some(paired_matrix()), 5, &mut savings);
    let routes = savings_routes(&savings, &demands, 6, 5).unwrap();
    assert_eq!(routes, vec![vec![1, 2], vec![3, 4]]);
    for route in &routes {
        assert_eq!(route.len(), 2);
        assert_eq!(load(route, &demands), 6);
    }
}

#[test]
fn four_single_routes_with_capacity_three() {
    let demands = vec![0, 3, 3, 3, 3];
    let mut savings = Vec::new();
    compute_savings_explicit(&Some(paired_matrix()), 5, &mut savings);
    let routes = savings_routes(&savings, &demands, 3, 5).unwrap();
    assert_eq!(routes, vec![vec![1], vec![2], vec![3], vec![4]]);
}

#[test]
fn the_solver_on_the_instance_with_two_pairs() {
    let graph = GraphInstance { instance: parse(&paired_text(6)).unwrap() };
    let solver = SavingsSolver { instance: &graph };
    assert_eq!(solver.solve(), Ok(vec![vec![1, 2], vec![3, 4]]));
    let tight = GraphInstance { instance: parse(&paired_text(3)).unwrap() };
    let solver = SavingsSolver { instance: &tight };
    assert_eq!(solver.solve(), Ok(vec![vec![1], vec![2], vec![3], vec![4]]));
    let wide = GraphInstance { instance: parse(&paired_text(12)).unwrap() };
    let mut solver = SavingsSolver { instance: &graph };
    solver.add_instance(&wide);
    let routes = solver.solve().unwrap();
    assert_eq!(routes, vec![vec![2, 1, 3, 4]]);
}

#[test]
fn routes_are_joined_at_their_ends() {
    let demands = vec![0, 1, 1, 1, 1, 1];
    // 1-2, then 3-1 (1 is the head of its route), then 2-4 (2 is the tail)
    let savings = vec![(1, 2, 9), (3, 1, 8), (2, 4, 7), (1, 2, 6), (2, 5, 5), (5, 3, 4)];
    let routes = savings_routes(&savings, &demands, 10, 6).unwrap();
    assert_eq!(routes, vec![vec![5, 3, 1, 2, 4]]);
    // both are heads: the first route is turned
    let heads = vec![(1, 2, 9), (3, 4, 8), (1, 3, 7)];
    assert_eq!(
        savings_routes(&heads, &demands, 10, 6).unwrap(),
        vec![vec![2, 1, 3, 4], vec![5]]
    );
    // both are tails: the second route is turned
    let tails = vec![(1, 2, 9), (3, 4, 8), (2, 4, 7)];
    assert_eq!(
        savings_routes(&tails, &demands, 10, 6).unwrap(),
        vec![vec![1, 2, 4, 3], vec![5]]
    );
    // a head and a tail: both routes are turned
    let mixed = vec![(1, 2, 9), (3, 4, 8), (1, 4, 7)];
    assert_eq!(
        savings_routes(&mixed, &demands, 10, 6).unwrap(),
        vec![vec![2, 1, 4, 3], vec![5]]
    );
    // a tail and a head: nothing is turned
    let plain = vec![(1, 2, 9), (3, 4, 8), (2, 3, 7)];
    assert_eq!(
        savings_routes(&plain, &demands, 10, 6).unwrap(),
        vec![vec![1, 2, 3, 4], vec![5]]
    );
}

#[test]
fn a_customer_inside_a_route_is_not_joined() {
    let demands = vec![0, 1, 1, 1, 1];
    let savings = vec![(1, 2, 9), (2, 3, 8), (2, 4, 7)];
    assert_eq!(savings_routes(&savings, &demands, 10, 5).unwrap(), vec![vec![1, 2, 3], vec![4]]);
}

#[test]
fn savings_that_name_no_pair_of_customers_are_passed_over() {
    let demands = vec![0, 1, 1, 1];
    let savings = vec![(0, 1, 50), (1, 1, 40), (2, 7, 30), (9, 9, 20), (2, 3, 10)];
    assert_eq!(savings_routes(&savings, &demands, 10, 4).unwrap(), vec![vec![1], vec![2, 3]]);
}

#[test]
fn the_capacity_may_be_filled_but_not_exceeded() {
    let demands = vec![0, 4, 6, 1];
    let savings = vec![(1, 2, 9), (2, 3, 8)];
    assert_eq!(savings_routes(&savings, &demands, 10, 4).unwrap(), vec![vec![1, 2], vec![3]]);
    assert_eq!(savings_routes(&savings, &demands, 9, 4).unwrap(), vec![vec![1], vec![2, 3]]);
    assert_eq!(savings_routes(&savings, &demands, 11, 4).unwrap(), vec![vec![1, 2, 3]]);
}

#[test]
fn the_savings_solver_fails_fast() {
    let savings = vec![(1, 2, 9)];
    assert_eq!(savings_routes(&savings, &vec![0, 1], 10, 3), Err(SolveError::MissingDemand));
    assert_eq!(savings_routes(&savings, &vec![], 10, 3), Err(SolveError::MissingDemand));
    assert_eq!(
        savings_routes(&savings, &vec![0, 1, 11], 10, 3),
        Err(SolveError::DemandExceedsCapacity)
    );
    // the demand of the depot does not count
    assert_eq!(savings_routes(&savings, &vec![99, 1, 1], 10, 3), Ok(vec![vec![1, 2]]));
    assert_eq!(savings_routes(&savings, &vec![0], 10, 1), Ok(vec![]));
    assert_eq!(savings_routes(&savings, &vec![], 10, 0), Ok(vec![]));
}

struct Made {
    savings: Result<Vec<(usize, usize, usize)>, SolveError>,
    nodes: Vec<usize>,
    demands: Vec<usize>,
}

impl SavingsInstanceTrait for Made {
    fn compute_savings(&self) -> Result<Vec<(usize, usize, usize)>, SolveError> {
        self.savings.clone()
    }

    fn get_capacity(&self) -> usize {
        5
    }

    fn get_nodes_list(&self) -> Vec<usize> {
        self.nodes.clone()
    }

    fn get_nodes_demand(&self) -> Vec<usize> {
        self.demands.clone()
    }
}

#[test]
fn the_solver_asks_the_instance() {
    let good = Made { savings: Ok(vec![(2, 3, 1)]), nodes: vec![0, 1, 2, 3], demands: vec![0, 2, 2, 3] };
    assert_eq!(SavingsSolver { instance: &good }.solve(), Ok(vec![vec![1], vec![2, 3]]));
    let unsupported = Made { savings: Err(SolveError::Unsupported), ..good };
    assert_eq!(SavingsSolver { instance: &unsupported }.solve(), Err(SolveError::Unsupported));
    let shuffled = Made { savings: Ok(vec![]), nodes: vec![0, 2, 1], demands: vec![0, 1, 1] };
    assert_eq!(SavingsSolver { instance: &shuffled }.solve(), Err(SolveError::Malformed));
    assert!(check_node_list(&vec![0, 1, 2]));
    assert!(check_node_list(&vec![]));
    assert!(!check_node_list(&vec![1, 2]));
}

#[test]
fn instances_without_usable_distances_have_no_savings() {
    let geo = "NAME : g\nTYPE : CVRP\nDIMENSION : 2\nCAPACITY : 5\nEDGE_WEIGHT_TYPE : GEO\n\
NODE_COORD_SECTION\n1 38.24 20.42\n2 39.57 26.15\nDEMAND_SECTION\n1 0\n2 1\nEOF\n";
    let graph = GraphInstance { instance: parse(geo).unwrap() };
    assert_eq!(graph.compute_savings(), Err(SolveError::Unsupported));
    assert_eq!(SavingsSolver { instance: &graph }.solve(), Err(SolveError::Unsupported));
    let no_matrix = "NAME : g\nTYPE : CVRP\nDIMENSION : 2\nCAPACITY : 5\nEDGE_WEIGHT_TYPE : EXPLICIT\n\
DEMAND_SECTION\n1 0\n2 1\nEOF\n";
    let graph = GraphInstance { instance: parse(no_matrix).unwrap() };
    assert_eq!(graph.compute_savings(), Err(SolveError::Unsupported));
    let no_coords = "NAME : g\nTYPE : CVRP\nDIMENSION : 2\nCAPACITY : 5\nEDGE_WEIGHT_TYPE : EUC_2D\n\
DEMAND_SECTION\n1 0\n2 1\nEOF\n";
    let graph = GraphInstance { instance: parse(no_coords).unwrap() };
    assert_eq!(graph.compute_savings(), Err(SolveError::Malformed));
    let no_demands = "NAME : g\nTYPE : CVRP\nDIMENSION : 2\nCAPACITY : 5\nEDGE_WEIGHT_TYPE : EUC_2D\n\
NODE_COORD_SECTION\n1 0 0\n2 1 1\nEOF\n";
    let graph = GraphInstance { instance: parse(no_demands).unwrap() };
    assert_eq!(SavingsSolver { instance: &graph }.solve(), Err(SolveError::MissingDemand));
}

#[test]
fn the_instance_gives_its_nodes_demands_and_capacity() {
    let graph = GraphInstance { instance: parse(&paired_text(6)).unwrap() };
    assert_eq!(SavingsInstanceTrait::get_capacity(&graph), 6);
    assert_eq!(graph.get_nodes_list(), vec![0, 1, 2, 3, 4]);
    assert_eq!(SavingsInstanceTrait::get_nodes_demand(&graph), vec![0, 3, 3, 3, 3]);
    assert_eq!(
        graph.compute_savings().unwrap(),
        vec![(1, 2, 19), (1, 3, 0), (1, 4, 0), (2, 3, 0), (2, 4, 0), (3, 4, 19)]
    );
}

#[test]
fn savings_routes_keep_within_capacity_and_serve_everyone() {
    // a ring of 11 customers around the depot, with distances by place
    let n = 12usize;
    let mut matrix = vec![vec![0usize; n]; n];
    for i in 1..n {
        matrix[0][i] = 50;
        matrix[i][0] = 50;
        for j in 1..n {
            let gap = if i > j { i - j } else { j - i };
            matrix[i][j] = 7 * gap.min(n - 1 - gap);
        }
    }
    let demands: Vec<usize> = (0..n).map(|c| if c == 0 { 0 } else { 1 + (c * 5) % 4 }).collect();
    let mut savings = Vec::new();
    compute_savings_explicit(&Some(matrix), n, &mut savings);
    for capacity in [4usize, 5, 7, 10, 30, 100] {
        let routes = savings_routes(&savings, &demands, capacity, n).unwrap();
        assert_partition(&routes, &demands, capacity, n);
        let again = savings_routes(&savings, &demands, capacity, n).unwrap();
        assert_eq!(routes, again);
    }
}

#[test]
fn routes_are_copied_forwards_and_backwards() {
    let mut route = vec![1, 2];
    append_forward(&mut route, &vec![3, 4, 5]);
    assert_eq!(route, vec![1, 2, 3, 4, 5]);
    append_backward(&mut route, &vec![6, 7, 8]);
    assert_eq!(route, vec![1, 2, 3, 4, 5, 8, 7, 6]);
    append_backward(&mut route, &vec![]);
    assert_eq!(route.len(), 8);
}
