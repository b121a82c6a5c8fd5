use cvrp::algorithm_interface::CVRPSolver;
use cvrp::model::source::DistanceSource;
use cvrp::model::{compute_cost_of_routes, GraphInstance};
use cvrp::savings_algorithm::savings_algorithm_imp::SavingsSolver;
use cvrp::sweep_algorithm::sweep_algorithm_imp::SweepSolver;
use cvrp::tsplib_parser::keyword_values::{EDGE_WEIGHT_FORMAT, EDGE_WEIGHT_TYPE, TYPE};
use cvrp::tsplib_parser::parser::parse;

const PLANE: &str = "NAME : plane-n10-k3
COMMENT : (ten nodes in the plane, three vehicles)
TYPE : CVRP
DIMENSION : 10
EDGE_WEIGHT_TYPE : EUC_2D
CAPACITY : 100
NODE_COORD_SECTION
 1 50 50
 2 60 52.5
 3 71 58
 4 53 68
 5 47.5 79
 6 38 62
 7 22 55
 8 35 40
 9 44 21
 10 62 33
DEMAND_SECTION
1 0
2 19
3 21
4 6
5 19
6 7
7 12
8 16
9 6
10 16
DEPOT_SECTION
 1
 -1
EOF
";

const TABLE: &str = "NAME : table-n6-k2
TYPE : CVRP
COMMENT : six nodes, weights given as a lower triangle
DIMENSION : 6
EDGE_WEIGHT_TYPE : EXPLICIT
EDGE_WEIGHT_FORMAT : LOWER_ROW
DISPLAY_DATA_TYPE : NO_DISPLAY
CAPACITY : 30
EDGE_WEIGHT_SECTION
   12
   19    7
   31   22   15
   22   17   12   11
   17   25   26   28   18
DEMAND_SECTION
1 0
2 11
3 9
4 14
5 8
6 10
DEPOT_SECTION
   1
   -1
EOF
";

fn assert_partition(routes: &[Vec<usize>], demands: &[usize], capacity: usize) {
    let n = demands.len();
    let mut seen = vec![0usize; n];
    for route in routes {
        assert!(!route.is_empty());
        let load: usize = route.iter().map(|&c| demands[c]).sum();
        assert!(load <= capacity);
        for &c in route {
            assert!(1 <= c && c < n);
            seen[c] += 1;
        }
    }
    for c in 1..n {
        assert_eq!(seen[c], 1);
    }
}

fn cost_by_hand(source: &DistanceSource, routes: &[Vec<usize>]) -> usize {
    let mut cost = 0;
    for route in routes {
        let mut at = 0;
        for &c in route {
            cost += source.distance(at, c);
            at = c;
        }
        if !route.is_empty() {
            cost += source.distance(at, 0);
        }
    }
    cost
}

#[test]
fn an_instance_in_the_plane_from_text_to_cost() {
    let instance = parse(PLANE).unwrap();
    assert_eq!(instance.specification.name, "plane-n10-k3");
    assert_eq!(instance.specification.data_type, TYPE::CVRP);
    assert_eq!(instance.specification.edge_weight_type, EDGE_WEIGHT_TYPE::EUC_2D);
    let demands = vec![0, 19, 21, 6, 19, 7, 12, 16, 6, 16];
    let graph = GraphInstance { instance };
    let source = graph.distance_source().unwrap();
    assert_eq!(source.node_count(), 10);
    // from the depot to node 2: sqrt(100 + 6.25) = 10.3..
    assert_eq!(source.distance(0, 1), 10);
    // from node 2 to node 3: sqrt(121 + 30.25) = 12.2..
    assert_eq!(source.distance(1, 2), 12);

    let savings = SavingsSolver { instance: &graph }.solve().unwrap();
    assert_partition(&savings, &demands, 100);
    let savings_cost = compute_cost_of_routes(&graph, &savings).unwrap();
    assert_eq!(savings_cost, cost_by_hand(&source, &savings));

    let sweep = SweepSolver { instance: &graph, seed: 3 }.solve().unwrap();
    assert_partition(&sweep, &demands, 100);
    let sweep_cost = compute_cost_of_routes(&graph, &sweep).unwrap();
    assert_eq!(sweep_cost, cost_by_hand(&source, &sweep));
    // the sweep goes round the depot once, so its routes, one after the other, are the order
    let order: Vec<usize> = sweep.iter().flatten().copied().collect();
    assert_eq!(order, vec![1, 2, 3, 4, 5, 6, 7, 8, 9]);
    assert_eq!(sweep, vec![vec![1, 2, 3, 4, 5, 6, 7], vec![8, 9]]);

    // each customer alone costs the way there and back
    let alone: Vec<Vec<usize>> = (1..10).map(|c| vec![c]).collect();
    let alone_cost = compute_cost_of_routes(&graph, &alone).unwrap();
    let there_and_back: usize = (1..10).map(|c| 2 * source.distance(0, c)).sum();
    assert_eq!(alone_cost, there_and_back);
}

#[test]
fn an_instance_with_a_table_of_weights_from_text_to_cost() {
    let instance = parse(TABLE).unwrap();
    assert_eq!(instance.specification.edge_weight_format, Some(EDGE_WEIGHT_FORMAT::LOWER_ROW));
    let matrix = vec![
        vec![0, 12, 19, 31, 22, 17],
        vec![12, 0, 7, 22, 17, 25],
        vec![19, 7, 0, 15, 12, 26],
        vec![31, 22, 15, 0, 11, 28],
        vec![22, 17, 12, 11, 0, 18],
        vec![17, 25, 26, 28, 18, 0],
    ];
    assert_eq!(instance.data.edge_weight_section, Some(matrix.clone()));
    let demands = vec![0, 11, 9, 14, 8, 10];
    let graph = GraphInstance { instance };

    // savings: (1,2) 24, (1,3) 21, (1,4) 17, (1,5) 4, (2,3) 35, (2,4) 29, (2,5) 10,
    // (3,4) 42, (3,5) 20, (4,5) 21
    // 3-4 are joined (22), then 2-3 (31 is too much), 2-4 (too much), 1-2 (20),
    // 1-3 and 4-5 and 3-5 and 1-4 (too much), 2-5 joins 5 to the route of 1 and 2 (30)
    let savings = SavingsSolver { instance: &graph }.solve().unwrap();
    assert_eq!(savings, vec![vec![1, 2, 5], vec![3, 4]]);
    assert_partition(&savings, &demands, 30);
    assert_eq!(
        compute_cost_of_routes(&graph, &savings),
        Ok((12 + 7 + 26 + 17) + (31 + 11 + 22))
    );

    for seed in 0..20u64 {
        let sweep = SweepSolver { instance: &graph, seed }.solve().unwrap();
        assert_partition(&sweep, &demands, 30);
        let cost = compute_cost_of_routes(&graph, &sweep).unwrap();
        assert_eq!(cost, cost_by_hand(&DistanceSource::Matrix(&matrix), &sweep));
    }
}

#[test]
fn an_instance_can_be_copied() {
    let instance = parse(TABLE).unwrap();
    let copy = instance.clone();
    assert_eq!(copy.specification.name, instance.specification.name);
    assert_eq!(copy.specification.comment, instance.specification.comment);
    assert_eq!(copy.data.edge_weight_section, instance.data.edge_weight_section);
    assert_eq!(copy.data.demand_section, instance.data.demand_section);
    assert_eq!(copy.data.depot_section, Some(vec![1]));
}
