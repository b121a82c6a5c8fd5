use cvrp::algorithm_interface::{CVRPSolver, SolveError};
use cvrp::model::random::pick_customer;
use cvrp::model::GraphInstance;
use cvrp::sweep_algorithm::binning::{check_customer_order, sweep_routes};
use cvrp::sweep_algorithm::cluster::{find_second_anchor, find_third_anchor, order_by_clusters};
use cvrp::sweep_algorithm::polar::order_by_angle;
use cvrp::sweep_algorithm::sweep_algorithm_imp::SweepSolver;
use cvrp::sweep_algorithm::sweep_instance_trait::SweepInstanceTrait;
use cvrp::tsplib_parser::custom_types::Coord;
use cvrp::tsplib_parser::parser::parse;

const ONE: i64 = 1_000_000;

fn at(node: usize, x: i64, y: i64) -> Coord {
    Coord::Coord2d((node, x, y))
}

/// The depot and six customers around it, sixty degrees apart.
fn hexagon() -> Vec<Coord> {
    vec![
        at(1, 100 * ONE, 100 * ONE),
        at(2, 110 * ONE, 100 * ONE),
        at(3, 105 * ONE, 108_660_254),
        at(4, 95 * ONE, 108_660_254),
        at(5, 90 * ONE, 100 * ONE),
        at(6, 95 * ONE, 91_339_746),
        at(7, 105 * ONE, 91_339_746),
    ]
}

const HEXAGON_TEXT: &str = "NAME : hexagon\nTYPE : CVRP\nDIMENSION : 7\nCAPACITY : 2\n\
EDGE_WEIGHT_TYPE : EUC_2D\nNODE_COORD_SECTION\n\
1 100 100\n7 105 91.339746\n2 110 100\n3 105 108.660254\n6 95 91.339746\n4 95 108.660254\n5 90 100\n\
DEMAND_SECTION\n1 0\n2 1\n3 1\n4 1\n5 1\n6 1\n7 1\nDEPOT_SECTION\n1\n-1\nEOF\n";

fn assert_partition(routes: &[Vec<usize>], demands: &[usize], capacity: usize, n: usize) {
    let mut seen = vec![0usize; n];
    for route in routes {
        assert!(!route.is_empty());
        let load: usize = route.iter().map(|&c| demands[c]).sum();
        assert!(load <= capacity);
        for &c in route {
            assert!(1 <= c && c < n);
            seen[c] += 1;
        }
    }
    for c in 1..n {
        assert_eq!(seen[c], 1);
    }
}

#[test]
fn customers_around_the_depot_are_met_in_turn() {
    assert_eq!(order_by_angle(&hexagon()), vec![1, 2, 3, 4, 5, 6]);
}

#[test]
fn the_sweep_starts_at_the_first_axis_and_turns_against_the_clock() {
    let coords = vec![
        at(1, 0, 0),
        at(2, 0, -ONE),      // 270 degrees
        at(3, -ONE, 0),      // 180
        at(4, 0, ONE),       // 90
        at(5, ONE, 0),       // 0
        at(6, ONE, -ONE),    // 315
        at(7, -ONE, -ONE),   // 225
        at(8, -ONE, ONE),    // 135
        at(9, ONE, ONE),     // 45
    ];
    assert_eq!(order_by_angle(&coords), vec![4, 8, 3, 7, 2, 6, 1, 5]);
}

#[test]
fn customers_under_one_angle_are_met_from_the_nearest() {
    let coords = vec![
        at(1, 0, 0),
        at(2, 3 * ONE, 3 * ONE),
        at(3, ONE, ONE),
        at(4, 2 * ONE, 2 * ONE),
        at(5, 5 * ONE, 0),
        at(6, 0, 0),
        at(7, 2 * ONE, 0),
        at(8, ONE, ONE),
    ];
    // the customer at the depot comes first, then the first axis, then 45 degrees;
    // the customers 2 and 7 lie at one place and keep their order
    assert_eq!(order_by_angle(&coords), vec![5, 6, 4, 2, 7, 3, 1]);
}

#[test]
fn few_nodes_have_short_orders() {
    assert_eq!(order_by_angle(&vec![]), Vec::<usize>::new());
    assert_eq!(order_by_angle(&vec![at(1, 5, 5)]), Vec::<usize>::new());
    assert_eq!(order_by_angle(&vec![at(1, 5, 5), at(2, 0, 0)]), vec![1]);
}

#[test]
fn the_order_is_cut_where_the_capacity_is_reached() {
    let demands = vec![0, 3, 3, 3, 3, 3, 3];
    let order = vec![1, 2, 3, 4, 5, 6];
    assert_eq!(
        sweep_routes(&order, &demands, 6, 7).unwrap(),
        vec![vec![1, 2], vec![3, 4], vec![5, 6]]
    );
    assert_eq!(
        sweep_routes(&order, &demands, 8, 7).unwrap(),
        vec![vec![1, 2], vec![3, 4], vec![5, 6]]
    );
    assert_eq!(sweep_routes(&order, &demands, 9, 7).unwrap(), vec![vec![1, 2, 3], vec![4, 5, 6]]);
    assert_eq!(
        sweep_routes(&order, &demands, 3, 7).unwrap(),
        vec![vec![1], vec![2], vec![3], vec![4], vec![5], vec![6]]
    );
    assert_eq!(sweep_routes(&order, &demands, 18, 7).unwrap(), vec![vec![1, 2, 3, 4, 5, 6]]);
    let mixed = vec![0, 5, 1, 4, 2, 2, 6];
    assert_eq!(
        sweep_routes(&vec![3, 1, 2, 6, 4, 5], &mixed, 6, 7).unwrap(),
        vec![vec![3], vec![1, 2], vec![6], vec![4, 5]]
    );
}

#[test]
fn a_customer_without_demand_joins_a_full_route() {
    let demands = vec![0, 4, 0, 4];
    assert_eq!(sweep_routes(&vec![1, 2, 3], &demands, 4, 4).unwrap(), vec![vec![1, 2], vec![3]]);
}

#[test]
fn the_sweep_fails_fast() {
    let order = vec![1, 2];
    assert_eq!(sweep_routes(&order, &vec![0, 1], 5, 3), Err(SolveError::MissingDemand));
    assert_eq!(sweep_routes(&order, &vec![0, 1, 6], 5, 3), Err(SolveError::DemandExceedsCapacity));
    assert_eq!(sweep_routes(&vec![1], &vec![0, 1, 1], 5, 3), Err(SolveError::InvalidNodes));
    assert_eq!(sweep_routes(&vec![1, 1], &vec![0, 1, 1], 5, 3), Err(SolveError::InvalidNodes));
    assert_eq!(sweep_routes(&vec![1, 2, 2], &vec![0, 1, 1], 5, 3), Err(SolveError::InvalidNodes));
    assert_eq!(sweep_routes(&vec![0, 1, 2], &vec![0, 1, 1], 5, 3), Err(SolveError::InvalidNodes));
    assert_eq!(sweep_routes(&vec![1, 3], &vec![0, 1, 1], 5, 3), Err(SolveError::InvalidNodes));
    assert_eq!(sweep_routes(&vec![], &vec![0], 5, 1), Ok(vec![]));
    assert_eq!(sweep_routes(&vec![], &vec![], 5, 0), Ok(vec![]));
}

#[test]
fn orders_of_the_customers_are_told_from_other_lists() {
    assert!(check_customer_order(&vec![3, 1, 2], 4));
    assert!(check_customer_order(&vec![], 1));
    assert!(check_customer_order(&vec![], 0));
    assert!(!check_customer_order(&vec![3, 1], 4));
    assert!(!check_customer_order(&vec![3, 1, 1], 4));
    assert!(!check_customer_order(&vec![3, 1, 2, 0], 4));
    assert!(!check_customer_order(&vec![1, 2, 3, 4], 4));
}

#[test]
fn the_sweep_solver_on_the_hexagon() {
    let graph = GraphInstance { instance: parse(HEXAGON_TEXT).unwrap() };
    for seed in [0u64, 1, 99] {
        let solver = SweepSolver { instance: &graph, seed };
        assert_eq!(solver.solve(), Ok(vec![vec![1, 2], vec![3, 4], vec![5, 6]]));
    }
    assert_eq!(graph.order_nodes(5), Ok(vec![1, 2, 3, 4, 5, 6]));
    assert_eq!(graph.get_node_count(), 7);
    assert_eq!(SweepInstanceTrait::get_capacity(&graph), 2);
    assert_eq!(SweepInstanceTrait::get_nodes_demand(&graph), vec![0, 1, 1, 1, 1, 1, 1]);
}

/// Seven nodes on a line, at the places 0, 1, 2, 10, 11, 20 and 22.
fn line_matrix() -> Vec<Vec<usize>> {
    let places: [usize; 7] = [0, 1, 2, 10, 11, 20, 22];
    places
        .iter()
        .map(|&a| places.iter().map(|&b| if a > b { a - b } else { b - a }).collect())
        .collect()
}

#[test]
fn the_three_customers_that_the_clusters_stand_on() {
    let m = line_matrix();
    // the farthest from 1 is 6; the most opposite to 1 and 6 is the first of all,
    // as the sum is the same for every customer between them
    assert_eq!(find_second_anchor(&m, 1), 6);
    assert_eq!(find_third_anchor(&m, 1, 6), 2);
    assert_eq!(find_second_anchor(&m, 6), 1);
    assert_eq!(find_second_anchor(&m, 3), 6);
    assert_eq!(find_third_anchor(&m, 3, 6), 1);
    let two = vec![vec![0, 5], vec![5, 0]];
    assert_eq!(find_second_anchor(&two, 1), 0);
    let three = vec![vec![0, 5, 5], vec![5, 0, 1], vec![5, 1, 0]];
    assert_eq!(find_second_anchor(&three, 1), 2);
    assert_eq!(find_third_anchor(&three, 1, 2), 0);
    // of two customers that are equally far the one with the larger number
    let ties = vec![vec![0, 1, 1, 1], vec![1, 0, 4, 4], vec![1, 4, 0, 4], vec![1, 4, 4, 0]];
    assert_eq!(find_second_anchor(&ties, 1), 3);
}

#[test]
fn customers_are_ordered_cluster_by_cluster() {
    let m = line_matrix();
    // from 3: the clusters stand on 3 (place 10), 6 (place 22) and 1 (place 1);
    // 4 is nearest to 3, 5 to 6, 2 to 1
    assert_eq!(order_by_clusters(&m, 3), vec![3, 4, 6, 5, 1, 2]);
    // from 1: the clusters stand on 1, 6 and 2; 3 and 4 are nearest to 2 (8 and 9 away)
    assert_eq!(order_by_clusters(&m, 1), vec![1, 6, 5, 2, 3, 4]);
    let two = vec![vec![0, 5], vec![5, 0]];
    assert_eq!(order_by_clusters(&two, 1), vec![1]);
    let three = vec![vec![0, 5, 5], vec![5, 0, 1], vec![5, 1, 0]];
    assert_eq!(order_by_clusters(&three, 2), vec![2, 1]);
}

#[test]
fn customers_that_are_equally_near_join_the_first_cluster() {
    // 1, 2 and 3 are the three customers; 4 is as far from each of them
    let m = vec![
        vec![0, 9, 9, 9, 9],
        vec![9, 0, 8, 6, 5],
        vec![9, 8, 0, 6, 5],
        vec![9, 6, 6, 0, 5],
        vec![9, 5, 5, 5, 0],
    ];
    assert_eq!(find_second_anchor(&m, 1), 2);
    assert_eq!(find_third_anchor(&m, 1, 2), 3);
    assert_eq!(order_by_clusters(&m, 1), vec![1, 4, 2, 3]);
}

#[test]
fn a_draw_is_a_customer_and_depends_on_the_seed_alone() {
    let mut drawn = std::collections::BTreeSet::new();
    for seed in 0..200u64 {
        for n in [2usize, 3, 10, 1000] {
            let c = pick_customer(seed * 1_000_003 + 17, n);
            assert!(1 <= c && c < n);
            assert_eq!(c, pick_customer(seed * 1_000_003 + 17, n));
            if n == 10 {
                drawn.insert(c);
            }
        }
    }
    assert_eq!(drawn.len(), 9);
    assert_eq!(pick_customer(12345, 2), 1);
}

const LINE_TEXT: &str = "NAME : line\nTYPE : CVRP\nDIMENSION : 7\nCAPACITY : 6\n\
EDGE_WEIGHT_TYPE : EXPLICIT\nEDGE_WEIGHT_FORMAT : UPPER_ROW\nEDGE_WEIGHT_SECTION\n\
1 2 10 11 20 22\n1 9 10 19 21\n8 9 18 20\n1 10 12\n9 11\n2\n\
DEMAND_SECTION\n1 0\n2 1\n3 2\n4 3\n5 1\n6 2\n7 3\nEOF\n";

#[test]
fn the_sweep_solver_on_a_matrix() {
    let graph = GraphInstance { instance: parse(LINE_TEXT).unwrap() };
    assert_eq!(graph.instance.data.edge_weight_section, Some(line_matrix()));
    let demands = vec![0, 1, 2, 3, 1, 2, 3];
    for seed in 0..40u64 {
        let first = pick_customer(seed, 7);
        assert_eq!(graph.order_nodes(seed), Ok(order_by_clusters(&line_matrix(), first)));
        let solver = SweepSolver { instance: &graph, seed };
        let routes = solver.solve().unwrap();
        assert_partition(&routes, &demands, 6, 7);
        assert_eq!(
            routes,
            sweep_routes(&order_by_clusters(&line_matrix(), first), &demands, 6, 7).unwrap()
        );
        let again = SweepSolver { instance: &graph, seed }.solve().unwrap();
        assert_eq!(routes, again);
    }
}

#[test]
fn the_seed_stays_when_the_instance_changes() {
    let first = GraphInstance { instance: parse(LINE_TEXT).unwrap() };
    let second = GraphInstance { instance: parse(HEXAGON_TEXT).unwrap() };
    let mut solver = SweepSolver { instance: &first, seed: 77 };
    solver.add_instance(&second);
    assert_eq!(solver.seed, 77);
    assert_eq!(solver.solve(), Ok(vec![vec![1, 2], vec![3, 4], vec![5, 6]]));
}

#[test]
fn instances_that_cannot_be_swept() {
    let special = "NAME : g\nTYPE : CVRP\nDIMENSION : 2\nCAPACITY : 5\nEDGE_WEIGHT_TYPE : SPECIAL\n\
DEMAND_SECTION\n1 0\n2 1\nEOF\n";
    let graph = GraphInstance { instance: parse(special).unwrap() };
    assert_eq!(graph.order_nodes(1), Err(SolveError::Unsupported));
    assert_eq!(SweepSolver { instance: &graph, seed: 1 }.solve(), Err(SolveError::Unsupported));
    let no_coords = "NAME : g\nTYPE : CVRP\nDIMENSION : 2\nCAPACITY : 5\nEDGE_WEIGHT_TYPE : EUC_2D\n\
DEMAND_SECTION\n1 0\n2 1\nEOF\n";
    let graph = GraphInstance { instance: parse(no_coords).unwrap() };
    assert_eq!(graph.order_nodes(1), Err(SolveError::Malformed));
    let no_matrix = "NAME : g\nTYPE : CVRP\nDIMENSION : 2\nCAPACITY : 5\nEDGE_WEIGHT_TYPE : EXPLICIT\n\
DEMAND_SECTION\n1 0\n2 1\nEOF\n";
    let graph = GraphInstance { instance: parse(no_matrix).unwrap() };
    assert_eq!(graph.order_nodes(1), Err(SolveError::Unsupported));
    // geographical coordinates are swept as they stand
    let geo = "NAME : g\nTYPE : CVRP\nDIMENSION : 3\nCAPACITY : 5\nEDGE_WEIGHT_TYPE : GEO\n\
NODE_COORD_SECTION\n1 38.24 20.42\n2 39.57 26.15\n3 40.56 25.32\nDEMAND_SECTION\n1 0\n2 1\n3 5\nEOF\n";
    let graph = GraphInstance { instance: parse(geo).unwrap() };
    assert_eq!(graph.order_nodes(1), Ok(vec![2, 1]));
    assert_eq!(SweepSolver { instance: &graph, seed: 1 }.solve(), Ok(vec![vec![2], vec![1]]));
    let one = "NAME : g\nTYPE : CVRP\nDIMENSION : 1\nCAPACITY : 5\nEDGE_WEIGHT_TYPE : EXPLICIT\n\
EDGE_WEIGHT_FORMAT : FULL_MATRIX\nEDGE_WEIGHT_SECTION\n0\nDEMAND_SECTION\n1 0\nEOF\n";
    let graph = GraphInstance { instance: parse(one).unwrap() };
    assert_eq!(SweepSolver { instance: &graph, seed: 1 }.solve(), Ok(vec![]));
}
