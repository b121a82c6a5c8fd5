use cvrp::parser::parser_functions::{get_token, skip_whitespaces};
use cvrp::parser::problem_instance::TspProblem;
use cvrp::tsplib_parser::keyword_values::{
    DISPLAY_DATE_TYPE, EDGE_DATA_FORMAT, EDGE_WEIGHT_FORMAT, EDGE_WEIGHT_TYPE, NODE_COORD_TYPE,
    TYPE,
};
use cvrp::tsplib_parser::problem_instance::Data;

fn no_data() -> Data {
    Data {
        node_coord_section: None,
        depot_section: None,
        demand_section: None,
        edge_data_section: None,
        fixed_edges_section: None,
        display_data_section: None,
        tour_section: None,
        edge_weight_section: None,
    }
}

fn problem() -> TspProblem {
    TspProblem {
        name: String::from("first"),
        data_type: TYPE::TSP,
        comment: String::new(),
        dimension: 0,
        edge_weight_type: EDGE_WEIGHT_TYPE::EXPLICIT,
        edge_weight_format: EDGE_WEIGHT_FORMAT::FUNCTION,
        edge_data_format: EDGE_DATA_FORMAT::EDGE_LIST,
        display_data_type: DISPLAY_DATE_TYPE::NO_DISPLAY,
        node_coord_type: NODE_COORD_TYPE::NO_COORDS,
        graph_instance: no_data(),
    }
}

#[test]
fn a_field_that_is_set_is_read_back() {
    let mut p = problem();
    assert_eq!(p.get_name(), "first");
    p.set_name(String::from("second"));
    p.set_data_type(TYPE::CVRP);
    p.set_comment(String::from("a comment"));
    p.set_dimension(48);
    p.set_edge_weight_type(EDGE_WEIGHT_TYPE::GEO);
    p.set_edge_weight_format(EDGE_WEIGHT_FORMAT::UPPER_ROW);
    p.set_edge_data_format(EDGE_DATA_FORMAT::ADJ_LIST);
    p.set_display_data_type(DISPLAY_DATE_TYPE::TWOD_DISPLAY);
    p.set_node_coord_type(NODE_COORD_TYPE::TWOD_COORDS);
    let mut graph = no_data();
    graph.depot_section = Some(vec![1]);
    p.set_graph(graph);
    assert_eq!(p.get_name(), "second");
    assert_eq!(*p.get_data_type(), TYPE::CVRP);
    assert_eq!(p.get_comment(), "a comment");
    assert_eq!(p.get_dimension(), 48);
    assert_eq!(*p.get_edge_weight_type(), EDGE_WEIGHT_TYPE::GEO);
    assert_eq!(*p.get_edge_weight_format(), EDGE_WEIGHT_FORMAT::UPPER_ROW);
    assert_eq!(*p.get_edge_data_format(), EDGE_DATA_FORMAT::ADJ_LIST);
    assert_eq!(*p.get_display_data_type(), DISPLAY_DATE_TYPE::TWOD_DISPLAY);
    assert_eq!(*p.get_node_coord_type(), NODE_COORD_TYPE::TWOD_COORDS);
    assert_eq!(p.get_graph().depot_section, Some(vec![1]));
}

#[test]
fn setting_one_field_leaves_the_others() {
    let mut p = problem();
    p.set_dimension(7);
    assert_eq!(p.get_name(), "first");
    assert_eq!(*p.get_data_type(), TYPE::TSP);
    assert_eq!(p.get_comment(), "");
    assert_eq!(*p.get_edge_weight_format(), EDGE_WEIGHT_FORMAT::FUNCTION);
    assert_eq!(p.get_graph().depot_section, None);
}

#[test]
fn a_line_is_cut_into_its_first_word_and_the_rest() {
    assert_eq!(skip_whitespaces(b"  \t\r\n word  "), b"word  ");
    assert_eq!(skip_whitespaces(b"word"), b"word");
    assert_eq!(skip_whitespaces(b"   "), b"");
    assert_eq!(skip_whitespaces(b""), b"");
    let (token, rest) = get_token(b"  NAME : x");
    assert_eq!(token, b"NAME");
    assert_eq!(rest, b" : x");
    let (token, rest) = get_token(b"one");
    assert_eq!(token, b"one");
    assert_eq!(rest, b"");
    let (token, rest) = get_token(b" \n ");
    assert_eq!(token, b"");
    assert_eq!(rest, b"");
    let (token, rest) = get_token(b"a\tb c");
    assert_eq!(token, b"a");
    assert_eq!(rest, b"\tb c");
}
