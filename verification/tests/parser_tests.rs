use cvrp::tsplib_parser::custom_types::{Coord, EdgeData};
use cvrp::tsplib_parser::decoders::{
    parse_adj_vec, parse_coord_2d, parse_coord_3d, parse_depot, parse_edge, parse_edge_weight,
    parse_node_demand, parse_tour, to_whole,
};
use cvrp::tsplib_parser::header::parse_key_value;
use cvrp::tsplib_parser::keyword_values::{
    DISPLAY_DATE_TYPE, EDGE_DATA_FORMAT, EDGE_WEIGHT_FORMAT, EDGE_WEIGHT_TYPE, NODE_COORD_TYPE,
    TYPE,
};
use cvrp::tsplib_parser::keywords::{HeaderKey, ParseError, SectionKind};
use cvrp::tsplib_parser::number::read_number;
use cvrp::tsplib_parser::parser::{parse, parse_data, parse_specification};
use cvrp::tsplib_parser::parser_functions::{
    order_node_coord, order_node_demand_section, parse_instance_capacity,
    parse_instance_dimension, parse_instance_display_data_type, parse_instance_edge_data_format,
    parse_instance_edge_weight_format, parse_instance_edge_weight_type,
    parse_instance_node_coord_type, parse_instance_type,
};
use cvrp::tsplib_parser::sections::{parse_instance_section, parse_section_name};

const ONE: i64 = 1_000_000;

const COORD_INSTANCE: &str = "NAME : toy-n5\n\
COMMENT : a small instance \n\
COMMENT : (second comment)\n\
TYPE : CVRP\n\
DIMENSION : 5\n\
EDGE_WEIGHT_TYPE : EUC_2D\n\
CAPACITY : 10\n\
NODE_COORD_SECTION\n\
 1 0 0\n\
 3 -3.5 4\n\
 2 10 0\n\
 5 0.25 -7\n\
 4 6 8\n\
DEMAND_SECTION\n\
1 0\n\
2 4\n\
3 5\n\
4 6\n\
5 7\n\
DEPOT_SECTION\n\
 1\n\
 -1\n\
EOF\n";

const MATRIX_INSTANCE: &str = "NAME: tri\r\n\
TYPE: CVRP\r\n\
DIMENSION: 4\r\n\
CAPACITY: 100\r\n\
EDGE_WEIGHT_TYPE: EXPLICIT\r\n\
EDGE_WEIGHT_FORMAT: LOWER_DIAG_ROW\r\n\
DISPLAY_DATA_TYPE: TWOD_DISPLAY\r\n\
EDGE_WEIGHT_SECTION\r\n\
0\r\n\
1 0\r\n\
2 3 0\r\n\
4 5 6 0\r\n\
DEMAND_SECTION\r\n\
1 0\r\n\
2 10\r\n\
3 20\r\n\
4 30\r\n\
DISPLAY_DATA_SECTION\r\n\
1 1.5 2.5\r\n\
2 3 4\r\n\
EOF\r\n";

#[test]
fn a_coordinate_instance_is_read() {
    let instance = parse(COORD_INSTANCE).unwrap();
    let header = &instance.specification;
    assert_eq!(header.name, "toy-n5");
    assert_eq!(header.comment, vec!["a small instance".to_string(), "(second comment)".to_string()]);
    assert_eq!(header.data_type, TYPE::CVRP);
    assert_eq!(header.dimension, 5);
    assert_eq!(header.capacity, 10);
    assert_eq!(header.edge_weight_type, EDGE_WEIGHT_TYPE::EUC_2D);
    assert_eq!(header.edge_weight_format, None);
    assert_eq!(header.edge_data_format, None);
    assert_eq!(header.display_data_type, DISPLAY_DATE_TYPE::NO_DISPLAY);
    assert_eq!(header.node_coord_type, NODE_COORD_TYPE::NO_COORDS);
    let data = &instance.data;
    assert_eq!(
        data.node_coord_section,
        Some(vec![
            Coord::Coord2d((1, 0, 0)),
            Coord::Coord2d((2, 10 * ONE, 0)),
            Coord::Coord2d((3, -3_500_000, 4 * ONE)),
            Coord::Coord2d((4, 6 * ONE, 8 * ONE)),
            Coord::Coord2d((5, 250_000, -7 * ONE)),
        ])
    );
    assert_eq!(data.demand_section, Some(vec![(1, 0), (2, 4), (3, 5), (4, 6), (5, 7)]));
    assert_eq!(data.depot_section, Some(vec![1]));
    assert_eq!(data.edge_weight_section, None);
    assert_eq!(data.edge_data_section, None);
    assert_eq!(data.fixed_edges_section, None);
    assert_eq!(data.display_data_section, None);
    assert_eq!(data.tour_section, None);
}

#[test]
fn a_matrix_instance_is_read() {
    let instance = parse(MATRIX_INSTANCE).unwrap();
    assert_eq!(instance.specification.name, "tri");
    assert_eq!(instance.specification.edge_weight_type, EDGE_WEIGHT_TYPE::EXPLICIT);
    assert_eq!(
        instance.specification.edge_weight_format,
        Some(EDGE_WEIGHT_FORMAT::LOWER_DIAG_ROW)
    );
    assert_eq!(instance.specification.display_data_type, DISPLAY_DATE_TYPE::TWOD_DISPLAY);
    assert_eq!(
        instance.data.edge_weight_section,
        Some(vec![vec![0, 1, 2, 4], vec![1, 0, 3, 5], vec![2, 3, 0, 6], vec![4, 5, 6, 0]])
    );
    assert_eq!(instance.data.demand_section, Some(vec![(1, 0), (2, 10), (3, 20), (4, 30)]));
    assert_eq!(
        instance.data.display_data_section,
        Some(vec![Coord::Coord2d((1, 1_500_000, 2_500_000)), Coord::Coord2d((2, 3 * ONE, 4 * ONE))])
    );
    assert_eq!(instance.data.node_coord_section, None);
}

#[test]
fn the_keys_of_the_header_come_in_any_order() {
    let a = "NAME : x\nTYPE : TSP\nDIMENSION : 3\nCAPACITY : 9\nEDGE_WEIGHT_TYPE : GEO\nEOF\n";
    let b = "EDGE_WEIGHT_TYPE : GEO\nCAPACITY : 9\nCOMMENT : c\nDIMENSION : 3\nTYPE : TSP\nNAME : x\n";
    let first = parse(a).unwrap();
    let second = parse(b).unwrap();
    assert_eq!(first.specification.name, second.specification.name);
    assert_eq!(first.specification.data_type, TYPE::TSP);
    assert_eq!(second.specification.data_type, TYPE::TSP);
    assert_eq!(first.specification.dimension, second.specification.dimension);
    assert_eq!(first.specification.capacity, second.specification.capacity);
    assert_eq!(first.specification.edge_weight_type, EDGE_WEIGHT_TYPE::GEO);
    assert_eq!(second.specification.edge_weight_type, EDGE_WEIGHT_TYPE::GEO);
    assert_eq!(second.specification.comment, vec!["c".to_string()]);
    assert!(first.specification.comment.is_empty());
}

#[test]
fn the_sections_come_in_any_order() {
    let text = "NAME : x\nTYPE : CVRP\nDIMENSION : 2\nCAPACITY : 9\nEDGE_WEIGHT_TYPE : EUC_2D\n\
DEPOT_SECTION\n1\n-1\nDEMAND_SECTION\n2 5\n1 0\nNODE_COORD_SECTION\n2 1 1\n1 0 0\nEOF";
    let instance = parse(text).unwrap();
    assert_eq!(instance.data.depot_section, Some(vec![1]));
    assert_eq!(instance.data.demand_section, Some(vec![(1, 0), (2, 5)]));
    assert_eq!(
        instance.data.node_coord_section,
        Some(vec![Coord::Coord2d((1, 0, 0)), Coord::Coord2d((2, ONE, ONE))])
    );
}

fn header_without(key: &str) -> String {
    let lines = [
        "NAME : x",
        "TYPE : CVRP",
        "DIMENSION : 3",
        "CAPACITY : 9",
        "EDGE_WEIGHT_TYPE : EUC_2D",
    ];
    let mut text = String::new();
    for line in lines {
        if !line.starts_with(key) {
            text.push_str(line);
            text.push('\n');
        }
    }
    text.push_str("EOF\n");
    text
}

fn error_of(text: &str) -> ParseError {
    match parse(text) {
        Ok(_) => panic!("the text was read"),
        Err(e) => e,
    }
}

#[test]
fn a_missing_key_is_an_error() {
    assert_eq!(error_of(&header_without("NAME")), ParseError::MissingKey(HeaderKey::Name));
    assert_eq!(error_of(&header_without("TYPE")), ParseError::MissingKey(HeaderKey::Type));
    assert_eq!(
        error_of(&header_without("DIMENSION")),
        ParseError::MissingKey(HeaderKey::Dimension)
    );
    assert_eq!(error_of(&header_without("CAPACITY")), ParseError::MissingKey(HeaderKey::Capacity));
    assert_eq!(
        error_of(&header_without("EDGE_WEIGHT_TYPE")),
        ParseError::MissingKey(HeaderKey::EdgeWeightType)
    );
    assert_eq!(error_of(""), ParseError::MissingKey(HeaderKey::Name));
}

#[test]
fn a_key_that_comes_twice_is_an_error() {
    let text = "NAME : x\nTYPE : CVRP\nNAME : y\nDIMENSION : 3\nCAPACITY : 9\nEDGE_WEIGHT_TYPE : EUC_2D\n";
    assert_eq!(error_of(text), ParseError::DuplicateKey(HeaderKey::Name));
}

#[test]
fn a_value_that_is_not_known_is_an_error() {
    let base = "NAME : x\nDIMENSION : 3\nCAPACITY : 9\n";
    assert_eq!(
        error_of(&format!("{}TYPE : VRP\nEDGE_WEIGHT_TYPE : EUC_2D\n", base)),
        ParseError::BadValue(HeaderKey::Type)
    );
    assert_eq!(
        error_of(&format!("{}TYPE : CVRP\nEDGE_WEIGHT_TYPE : EUCLID\n", base)),
        ParseError::BadValue(HeaderKey::EdgeWeightType)
    );
    assert_eq!(
        error_of(&format!(
            "{}TYPE : CVRP\nEDGE_WEIGHT_TYPE : EXPLICIT\nEDGE_WEIGHT_FORMAT : DIAGONAL\n",
            base
        )),
        ParseError::BadValue(HeaderKey::EdgeWeightFormat)
    );
    assert_eq!(
        error_of(&format!(
            "{}TYPE : CVRP\nEDGE_WEIGHT_TYPE : EXPLICIT\nEDGE_DATA_FORMAT : LIST\n",
            base
        )),
        ParseError::BadValue(HeaderKey::EdgeDataFormat)
    );
    assert_eq!(
        error_of(&format!(
            "{}TYPE : CVRP\nEDGE_WEIGHT_TYPE : EUC_2D\nDISPLAY_DATA_TYPE : SOME\n",
            base
        )),
        ParseError::BadValue(HeaderKey::DisplayDataType)
    );
    assert_eq!(
        error_of(&format!(
            "{}TYPE : CVRP\nEDGE_WEIGHT_TYPE : EUC_2D\nNODE_COORD_TYPE : FOURD\n",
            base
        )),
        ParseError::BadValue(HeaderKey::NodeCoordType)
    );
}

#[test]
fn a_number_of_the_header_must_be_a_whole_number_above_zero() {
    let rest = "NAME : x\nTYPE : CVRP\nEDGE_WEIGHT_TYPE : EUC_2D\n";
    assert_eq!(
        error_of(&format!("{}DIMENSION : five\nCAPACITY : 9\n", rest)),
        ParseError::BadValue(HeaderKey::Dimension)
    );
    assert_eq!(
        error_of(&format!("{}DIMENSION : 0\nCAPACITY : 9\n", rest)),
        ParseError::BadValue(HeaderKey::Dimension)
    );
    assert_eq!(
        error_of(&format!("{}DIMENSION : 5\nCAPACITY : 0\n", rest)),
        ParseError::BadValue(HeaderKey::Capacity)
    );
    assert_eq!(
        error_of(&format!("{}DIMENSION : 5\nCAPACITY : 1.5\n", rest)),
        ParseError::BadValue(HeaderKey::Capacity)
    );
    assert_eq!(
        error_of(&format!("{}DIMENSION : 5\nCAPACITY : 99999999999999999999999999\n", rest)),
        ParseError::BadValue(HeaderKey::Capacity)
    );
}

#[test]
fn text_that_is_no_section_is_an_error() {
    let text = format!("{}", header_without("NONE").replace("EOF\n", "SOME_SECTION\n1 2\nEOF\n"));
    assert_eq!(error_of(&text), ParseError::UnknownSection);
    let glued = header_without("NONE").replace("EOF\n", "DEPOT_SECTION\n1\n2x\nEOF\n");
    assert_eq!(error_of(&glued), ParseError::UnknownSection);
    let no_digits = header_without("NONE").replace("EOF\n", "NODE_COORD_SECTION\n1 1e 3\nEOF\n");
    assert_eq!(error_of(&no_digits), ParseError::UnknownSection);
}

#[test]
fn a_section_that_comes_twice_is_an_error() {
    let text = header_without("NONE").replace("EOF\n", "DEPOT_SECTION\n1\n-1\nDEPOT_SECTION\n1\n-1\nEOF\n");
    assert_eq!(error_of(&text), ParseError::DuplicateSection(SectionKind::Depot));
}

#[test]
fn a_row_for_a_node_that_is_none_is_an_error() {
    let coords = header_without("NONE").replace("EOF\n", "NODE_COORD_SECTION\n1 0 0\n4 1 1\nEOF\n");
    assert_eq!(error_of(&coords), ParseError::BadSection(SectionKind::NodeCoord));
    let zero = header_without("NONE").replace("EOF\n", "NODE_COORD_SECTION\n0 0 0\nEOF\n");
    assert_eq!(error_of(&zero), ParseError::BadSection(SectionKind::NodeCoord));
    let demands = header_without("NONE").replace("EOF\n", "DEMAND_SECTION\n1 0\n9 1\nEOF\n");
    assert_eq!(error_of(&demands), ParseError::BadSection(SectionKind::Demand));
}

#[test]
fn explicit_weights_must_fit_the_layout() {
    let head = "NAME : x\nTYPE : CVRP\nDIMENSION : 3\nCAPACITY : 9\nEDGE_WEIGHT_TYPE : EXPLICIT\n";
    let short = format!("{}EDGE_WEIGHT_FORMAT : UPPER_ROW\nEDGE_WEIGHT_SECTION\n1 2\nEOF\n", head);
    assert_eq!(error_of(&short), ParseError::BadSection(SectionKind::EdgeWeight));
    let function = format!("{}EDGE_WEIGHT_FORMAT : FUNCTION\nEDGE_WEIGHT_SECTION\n1 2 3\nEOF\n", head);
    assert_eq!(error_of(&function), ParseError::BadSection(SectionKind::EdgeWeight));
    let no_format = format!("{}EDGE_WEIGHT_SECTION\n1 2 3\nEOF\n", head);
    assert_eq!(error_of(&no_format), ParseError::MissingKey(HeaderKey::EdgeWeightFormat));
    let good = format!("{}EDGE_WEIGHT_FORMAT : UPPER_ROW\nEDGE_WEIGHT_SECTION\n1 2\n3\nEOF\n", head);
    assert_eq!(
        parse(&good).unwrap().data.edge_weight_section,
        Some(vec![vec![0, 1, 2], vec![1, 0, 3], vec![2, 3, 0]])
    );
}

#[test]
fn weights_of_an_instance_with_coordinates_are_passed_over() {
    let text = header_without("NONE").replace("EOF\n", "EDGE_WEIGHT_SECTION\n1 2 3 4 5\nEOF\n");
    assert_eq!(parse(&text).unwrap().data.edge_weight_section, None);
}

#[test]
fn a_row_with_the_wrong_count_of_numbers_is_left_out() {
    let text = header_without("NONE").replace(
        "EOF\n",
        "NODE_COORD_SECTION\n1 0 0\n2 5\n3 1 2 3\n2 7 7\nDEMAND_SECTION\n1 0\n2\n3 4 5\n2 6\nEOF\n",
    );
    let instance = parse(&text).unwrap();
    assert_eq!(
        instance.data.node_coord_section,
        Some(vec![
            Coord::Coord2d((1, 0, 0)),
            Coord::Coord2d((2, 7 * ONE, 7 * ONE)),
            Coord::Coord2d((0, 0, 0)),
        ])
    );
    assert_eq!(instance.data.demand_section, Some(vec![(1, 0), (2, 6), (0, 0)]));
}

#[test]
fn a_row_with_a_number_out_of_range_is_left_out() {
    let text = header_without("NONE").replace(
        "EOF\n",
        "NODE_COORD_SECTION\n1 0 0\n2 1000000000.000001 1\n3 1000000000 -1000000000\nEOF\n",
    );
    let instance = parse(&text).unwrap();
    assert_eq!(
        instance.data.node_coord_section,
        Some(vec![
            Coord::Coord2d((1, 0, 0)),
            Coord::Coord2d((0, 0, 0)),
            Coord::Coord2d((3, 1_000_000_000_000_000, -1_000_000_000_000_000)),
        ])
    );
}

#[test]
fn coordinates_may_be_written_with_exponents() {
    let text = header_without("NONE").replace(
        "EOF\n",
        "NODE_COORD_SECTION\n1 0.00000e+00 0.00000e+00\n2 1.25000e+02 -4.0E1\n3 5e-1 2e0\nEOF\n",
    );
    let instance = parse(&text).unwrap();
    assert_eq!(
        instance.data.node_coord_section,
        Some(vec![
            Coord::Coord2d((1, 0, 0)),
            Coord::Coord2d((2, 125 * ONE, -40 * ONE)),
            Coord::Coord2d((3, 500_000, 2 * ONE)),
        ])
    );
}

#[test]
fn coordinates_in_space_and_the_other_sections() {
    let text = "NAME : s\nTYPE : TSP\nDIMENSION : 2\nCAPACITY : 1\nEDGE_WEIGHT_TYPE : EUC_3D\n\
NODE_COORD_TYPE : THREED_COORDS\nEDGE_DATA_FORMAT : EDGE_LIST\n\
NODE_COORD_SECTION\n1 1 2 3\n2 4.5 5 6\n2 1 1\n\
EDGE_DATA_SECTION\n1 2\n2 1\n1 2 3\n-1\n\
FIXED_EDGE_SECTION\n2 1\n-1\n\
TOUR_SECTION\n1 2\n2\n-1\nEOF\n";
    let instance = parse(text).unwrap();
    assert_eq!(instance.specification.node_coord_type, NODE_COORD_TYPE::THREED_COORDS);
    assert_eq!(instance.specification.edge_data_format, Some(EDGE_DATA_FORMAT::EDGE_LIST));
    assert_eq!(
        instance.data.node_coord_section,
        Some(vec![
            Coord::Coord3d((1, ONE, 2 * ONE, 3 * ONE)),
            Coord::Coord3d((2, 4_500_000, 5 * ONE, 6 * ONE)),
        ])
    );
    assert_eq!(
        instance.data.edge_data_section,
        Some(vec![EdgeData::Edge((1, 2)), EdgeData::Edge((2, 1))])
    );
    assert_eq!(instance.data.fixed_edges_section, Some(vec![EdgeData::Edge((2, 1))]));
    assert_eq!(instance.data.tour_section, Some(vec![vec![1, 2], vec![2]]));
}

#[test]
fn adjacency_lists_are_read_without_an_edge_list_format() {
    let text = "NAME : s\nTYPE : HCP\nDIMENSION : 3\nCAPACITY : 1\nEDGE_WEIGHT_TYPE : SPECIAL\n\
EDGE_DATA_FORMAT : ADJ_LIST\nEDGE_DATA_SECTION\n1 2 3\n2 3\n3\n-1\nEOF\n";
    let instance = parse(text).unwrap();
    assert_eq!(instance.specification.data_type, TYPE::HCP);
    assert_eq!(
        instance.data.edge_data_section,
        Some(vec![EdgeData::Adj(vec![1, 2, 3]), EdgeData::Adj(vec![2, 3])])
    );
}

#[test]
fn the_text_may_end_without_the_last_word() {
    let text = "NAME : x\nTYPE : CVRP\nDIMENSION : 1\nCAPACITY : 9\nEDGE_WEIGHT_TYPE : EUC_2D\nDEPOT_SECTION\n1";
    assert_eq!(parse(text).unwrap().data.depot_section, Some(vec![1]));
    let after = "NAME : x\nTYPE : CVRP\nDIMENSION : 1\nCAPACITY : 9\nEDGE_WEIGHT_TYPE : EUC_2D\nEOF\nanything";
    assert!(parse(after).is_ok());
}

#[test]
fn a_name_keeps_letters_that_are_not_ascii() {
    let text = "NAME : Köln-Süd  \nTYPE : CVRP\nDIMENSION : 1\nCAPACITY : 9\nEDGE_WEIGHT_TYPE : EUC_2D\n";
    assert_eq!(parse(text).unwrap().specification.name, "Köln-Süd");
}

#[test]
fn header_and_data_can_be_read_apart() {
    let (header, end) = parse_specification(COORD_INSTANCE).unwrap();
    assert_eq!(header.dimension, 5);
    assert_eq!(&COORD_INSTANCE[end..end + 1], "\n");
    assert!(COORD_INSTANCE[end + 1..].starts_with("NODE_COORD_SECTION"));
    let data = parse_data(COORD_INSTANCE, end, &header).unwrap();
    assert_eq!(data.depot_section, Some(vec![1]));
}

#[test]
fn a_key_line_is_cut_into_its_value() {
    let line = "  \n NAME \t:  my name  \r\nTYPE : x";
    let (value, end) = parse_key_value(line, 0, "NAME").unwrap();
    assert_eq!(value, "my name");
    assert_eq!(end, 22);
    assert_eq!(parse_key_value(line, 0, "TYPE"), None);
    let (second, _) = parse_key_value(line, end, "TYPE").unwrap();
    assert_eq!(second, "x");
    assert_eq!(parse_key_value("NAME x", 0, "NAME"), None);
    let (empty, at) = parse_key_value("NAME:", 0, "NAME").unwrap();
    assert_eq!(empty, "");
    assert_eq!(at, 5);
    let (tabs, _) = parse_key_value("NAME: a\t \n", 0, "NAME").unwrap();
    assert_eq!(tabs, "a\t");
    let (umlauts, _) = parse_key_value("NAME :äöü ß \n", 0, "NAME").unwrap();
    assert_eq!(umlauts, "äöü ß");
    let (only, _) = parse_key_value("NAME:é", 0, "NAME").unwrap();
    assert_eq!(only, "é");
}

#[test]
fn a_section_is_read_up_to_its_end() {
    let text = "\n DEPOT_SECTION \n 1\n 2 \n -1\nEOF";
    let (rows, end) = parse_instance_section(text, 0, "DEPOT_SECTION").unwrap();
    assert_eq!(rows, vec![vec![ONE], vec![2 * ONE]]);
    assert_eq!(&text[end..], "\nEOF");
    assert_eq!(parse_instance_section(text, 0, "DEMAND_SECTION"), None);
    assert_eq!(parse_instance_section("DEPOT_SECTION 1\n", 0, "DEPOT_SECTION"), None);
    assert_eq!(parse_section_name(text, 0, "DEPOT_SECTION"), Some(16));
    assert_eq!(parse_section_name(text, 0, "TOUR_SECTION"), None);
    let (several, _) = parse_instance_section("X\n1 2.5 -3\n\n4\t5\nY", 0, "X").unwrap();
    assert_eq!(several, vec![vec![ONE, 2_500_000, -3 * ONE], vec![4 * ONE, 5 * ONE]]);
}

#[test]
fn numbers_are_read_in_millionths() {
    let cases: [(&str, Option<i64>); 27] = [
        ("0", Some(0)),
        ("12", Some(12 * ONE)),
        ("+12", Some(12 * ONE)),
        ("-12", Some(-12 * ONE)),
        ("1.5", Some(1_500_000)),
        ("-0.000001", Some(-1)),
        ("0.0000019", Some(1)),
        (".25", Some(250_000)),
        ("7.", Some(7 * ONE)),
        ("38.24", Some(38_240_000)),
        ("1000000000", Some(1_000_000_000_000_000)),
        ("1000000000.000001", None),
        ("123456789012345678901234567890", None),
        ("-0", Some(0)),
        ("1e2", Some(100 * ONE)),
        ("1.5E+3", Some(1500 * ONE)),
        ("2.5e-1", Some(250_000)),
        ("-1.00000e+02", Some(-100 * ONE)),
        (".5e1", Some(5 * ONE)),
        ("123456789e-3", Some(123_456_789_000)),
        ("1e-6", Some(1)),
        ("1e-7", Some(0)),
        ("9.99e-7", Some(0)),
        ("1e9", Some(1_000_000_000_000_000)),
        ("1e10", None),
        ("0e999", Some(0)),
        ("1e1000", None),
    ];
    for (text, units) in cases {
        let read = read_number(text.as_bytes(), 0).unwrap();
        assert_eq!(read.end, text.len());
        assert_eq!(read.units, units);
    }
    for text in ["", "-", ".", "+.", "abc", "1a", "1.2.3", "1e", "1e+", "e5", "1e5x", "--1"] {
        assert!(read_number(text.as_bytes(), 0).is_none());
    }
    let read = read_number(b"ab 42 cd", 3).unwrap();
    assert_eq!((read.end, read.units), (5, Some(42 * ONE)));
}

#[test]
fn whole_parts_of_numbers() {
    assert_eq!(to_whole(0), 0);
    assert_eq!(to_whole(999_999), 0);
    assert_eq!(to_whole(ONE), 1);
    assert_eq!(to_whole(1_999_999), 1);
    assert_eq!(to_whole(-5 * ONE), 0);
    assert_eq!(to_whole(42 * ONE), 42);
}

#[test]
fn rows_are_decoded_by_their_count_of_numbers() {
    assert_eq!(parse_coord_2d(vec![ONE, 2 * ONE, -3]), Some(Coord::Coord2d((1, 2 * ONE, -3))));
    assert_eq!(parse_coord_2d(vec![ONE, 2 * ONE]), None);
    assert_eq!(parse_coord_2d(vec![ONE, 2, 3, 4]), None);
    assert_eq!(parse_coord_3d(vec![ONE, 2, 3, 4]), Some(Coord::Coord3d((1, 2, 3, 4))));
    assert_eq!(parse_coord_3d(vec![ONE, 2, 3]), None);
    assert_eq!(parse_depot(vec![3 * ONE]), Some(3));
    assert_eq!(parse_depot(vec![]), None);
    assert_eq!(parse_depot(vec![ONE, ONE]), None);
    assert_eq!(parse_node_demand(vec![2 * ONE, 30 * ONE]), Some((2, 30)));
    assert_eq!(parse_node_demand(vec![2 * ONE]), None);
    assert_eq!(parse_edge(vec![ONE, 2 * ONE]), Some(EdgeData::Edge((1, 2))));
    assert_eq!(parse_edge(vec![ONE]), None);
    assert_eq!(parse_adj_vec(vec![ONE, 2 * ONE, 3 * ONE]), Some(EdgeData::Adj(vec![1, 2, 3])));
    assert_eq!(parse_adj_vec(vec![ONE]), None);
    assert_eq!(parse_adj_vec(vec![]), None);
    assert_eq!(parse_tour(vec![ONE, 5 * ONE]), Some(vec![1, 5]));
    assert_eq!(parse_tour(vec![]), None);
    assert_eq!(parse_edge_weight(vec![7 * ONE, 8_900_000]), Some(vec![7, 8]));
    assert_eq!(parse_edge_weight(vec![]), None);
}

#[test]
fn the_words_of_the_header_are_known() {
    assert_eq!(parse_instance_type("TSP"), Some(TYPE::TSP));
    assert_eq!(parse_instance_type("ATSP"), Some(TYPE::ATSP));
    assert_eq!(parse_instance_type("SOP"), Some(TYPE::SOP));
    assert_eq!(parse_instance_type("HCP"), Some(TYPE::HCP));
    assert_eq!(parse_instance_type("CVRP"), Some(TYPE::CVRP));
    assert_eq!(parse_instance_type("TOUR"), Some(TYPE::TOUR));
    assert_eq!(parse_instance_type("tsp"), None);
    assert_eq!(parse_instance_type(""), None);
    let kinds = [
        ("EXPLICIT", EDGE_WEIGHT_TYPE::EXPLICIT),
        ("EUC_2D", EDGE_WEIGHT_TYPE::EUC_2D),
        ("EUC_3D", EDGE_WEIGHT_TYPE::EUC_3D),
        ("MAX_2D", EDGE_WEIGHT_TYPE::MAX_2D),
        ("MAX_3D", EDGE_WEIGHT_TYPE::MAX_3D),
        ("MAN_2D", EDGE_WEIGHT_TYPE::MAN_2D),
        ("MAN_3D", EDGE_WEIGHT_TYPE::MAN_3D),
        ("CEIL_2D", EDGE_WEIGHT_TYPE::CEIL_2D),
        ("GEO", EDGE_WEIGHT_TYPE::GEO),
        ("ATT", EDGE_WEIGHT_TYPE::ATT),
        ("XRAY1", EDGE_WEIGHT_TYPE::XRAY1),
        ("XRAY2", EDGE_WEIGHT_TYPE::XRAY2),
        ("SPECIAL", EDGE_WEIGHT_TYPE::SPECIAL),
    ];
    for (word, kind) in kinds {
        assert_eq!(parse_instance_edge_weight_type(word), Some(kind));
    }
    assert_eq!(parse_instance_edge_weight_type("EUC"), None);
    let formats = [
        ("FUNCTION", EDGE_WEIGHT_FORMAT::FUNCTION),
        ("FULL_MATRIX", EDGE_WEIGHT_FORMAT::FULL_MATRIX),
        ("UPPER_ROW", EDGE_WEIGHT_FORMAT::UPPER_ROW),
        ("LOWER_ROW", EDGE_WEIGHT_FORMAT::LOWER_ROW),
        ("UPPER_DIAG_ROW", EDGE_WEIGHT_FORMAT::UPPER_DIAG_ROW),
        ("LOWER_DIAG_ROW", EDGE_WEIGHT_FORMAT::LOWER_DIAG_ROW),
        ("UPPER_COL", EDGE_WEIGHT_FORMAT::UPPER_COL),
        ("LOWER_COL", EDGE_WEIGHT_FORMAT::LOWER_COL),
        ("UPPER_DIAG_COL", EDGE_WEIGHT_FORMAT::UPPER_DIAG_COL),
        ("LOWER_DIAG_COL", EDGE_WEIGHT_FORMAT::LOWER_DIAG_COL),
    ];
    for (word, format) in formats {
        assert_eq!(parse_instance_edge_weight_format(Some(word)), Ok(Some(format)));
    }
    assert_eq!(parse_instance_edge_weight_format(None), Ok(None));
    assert_eq!(
        parse_instance_edge_data_format(Some("EDGE_LIST")),
        Ok(Some(EDGE_DATA_FORMAT::EDGE_LIST))
    );
    assert_eq!(
        parse_instance_edge_data_format(Some("ADJ_LIST")),
        Ok(Some(EDGE_DATA_FORMAT::ADJ_LIST))
    );
    assert_eq!(parse_instance_edge_data_format(None), Ok(None));
    assert_eq!(
        parse_instance_node_coord_type(Some("TWOD_COORDS")),
        Some(NODE_COORD_TYPE::TWOD_COORDS)
    );
    assert_eq!(
        parse_instance_node_coord_type(Some("THREED_COORDS")),
        Some(NODE_COORD_TYPE::THREED_COORDS)
    );
    assert_eq!(parse_instance_node_coord_type(Some("NO_COORDS")), Some(NODE_COORD_TYPE::NO_COORDS));
    assert_eq!(parse_instance_node_coord_type(None), Some(NODE_COORD_TYPE::NO_COORDS));
    assert_eq!(parse_instance_node_coord_type(Some("COORDS")), None);
    assert_eq!(
        parse_instance_display_data_type(Some("COORD_DISPLAY")),
        Some(DISPLAY_DATE_TYPE::COORD_DISPLAY)
    );
    assert_eq!(
        parse_instance_display_data_type(Some("TWOD_DISPLAY")),
        Some(DISPLAY_DATE_TYPE::TWOD_DISPLAY)
    );
    assert_eq!(
        parse_instance_display_data_type(Some("NO_DISPLAY")),
        Some(DISPLAY_DATE_TYPE::NO_DISPLAY)
    );
    assert_eq!(parse_instance_display_data_type(None), Some(DISPLAY_DATE_TYPE::NO_DISPLAY));
    assert_eq!(parse_instance_display_data_type(Some("DISPLAY")), None);
}

#[test]
fn a_word_that_names_no_format_is_told_from_a_missing_key() {
    let no_layout = Err(ParseError::BadValue(HeaderKey::EdgeWeightFormat));
    for word in ["UPPER", "UPPER_TRI", "full_matrix", "", " UPPER_ROW", "UPPER_ROW ", "FUNCTIONS"] {
        assert_eq!(parse_instance_edge_weight_format(Some(word)), no_layout);
        assert_ne!(parse_instance_edge_weight_format(Some(word)), Ok(None));
    }
    assert_eq!(parse_instance_edge_weight_format(None), Ok(None));
    let no_format = Err(ParseError::BadValue(HeaderKey::EdgeDataFormat));
    for word in ["LIST", "edge_list", "", "ADJ_LISTS"] {
        assert_eq!(parse_instance_edge_data_format(Some(word)), no_format);
    }
    assert_eq!(parse_instance_edge_data_format(None), Ok(None));
}

#[test]
fn a_count_of_zero_is_no_count() {
    for word in ["0", "+0", "00", "000000"] {
        assert_eq!(parse_instance_dimension(word), None);
        assert_eq!(parse_instance_capacity(word), None);
    }
    for word in ["five", "", "-3", "4.5", "-0", "+", "1 ", " 1"] {
        assert_eq!(parse_instance_dimension(word), None);
        assert_eq!(parse_instance_capacity(word), None);
    }
    assert_eq!(parse_instance_dimension("1"), Some(1));
    assert_eq!(parse_instance_dimension("01"), Some(1));
    assert_eq!(parse_instance_capacity("1"), Some(1));
    assert_eq!(parse_instance_capacity("+10"), Some(10));
}

#[test]
fn counts_of_the_header() {
    assert_eq!(parse_instance_dimension("48"), Some(48));
    assert_eq!(parse_instance_dimension("+48"), Some(48));
    assert_eq!(parse_instance_dimension("0048"), Some(48));
    assert_eq!(parse_instance_dimension("0"), None);
    assert_eq!(parse_instance_dimension(""), None);
    assert_eq!(parse_instance_dimension("+"), None);
    assert_eq!(parse_instance_dimension("-3"), None);
    assert_eq!(parse_instance_dimension("4 8"), None);
    assert_eq!(parse_instance_dimension("48."), None);
    assert_eq!(parse_instance_capacity("100"), Some(100));
    assert_eq!(parse_instance_capacity("1e2"), None);
    assert_eq!(parse_instance_capacity("12a"), None);
    assert_eq!(parse_instance_capacity(&usize::MAX.to_string()), Some(usize::MAX));
    assert_eq!(parse_instance_capacity(&format!("{}0", usize::MAX)), None);
}

#[test]
fn rows_are_put_by_node() {
    let rows = Some(vec![
        Coord::Coord2d((3, 30, 31)),
        Coord::Coord2d((1, 10, 11)),
        Coord::Coord2d((3, 32, 33)),
        Coord::Coord2d((9, 90, 91)),
        Coord::Coord2d((0, 1, 1)),
    ]);
    assert_eq!(
        order_node_coord(&rows, &4),
        Some(vec![
            Coord::Coord2d((1, 10, 11)),
            Coord::Coord2d((0, 0, 0)),
            Coord::Coord2d((3, 32, 33)),
            Coord::Coord2d((0, 0, 0)),
        ])
    );
    assert_eq!(order_node_coord(&None, &4), None);
    assert_eq!(order_node_coord(&Some(vec![]), &2), Some(vec![Coord::Coord2d((0, 0, 0)); 2]));
    let demands = Some(vec![(2, 20), (1, 0), (4, 40), (2, 25), (5, 1), (0, 1)]);
    assert_eq!(
        order_node_demand_section(&demands, &4),
        Some(vec![(1, 0), (2, 25), (0, 0), (4, 40)])
    );
    assert_eq!(order_node_demand_section(&None, &4), None);
}
