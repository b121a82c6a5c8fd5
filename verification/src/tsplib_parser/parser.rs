//! Reading an instance: the header, then the data sections up to the end.

use vstd::prelude::*;
use vstd::string::StringSliceAdditionalSpecFns;
use crate::model::layout::matrix_view;
use crate::tsplib_parser::custom_types::{Coord, Node};
use crate::tsplib_parser::decoders::{
    coord_rule, decode_coords, decode_demands, decode_depots, decode_edges, decode_lists, decoded,
    demand_rule, depot_rule, edge_rule, list_rule,
};
use vstd::utf8::{decode_utf8, encode_utf8_decode_utf8};
use crate::tsplib_parser::header::{empty_header, header_from, read_header, Header, HeaderModel};
use crate::tsplib_parser::keyword_values::{
    DISPLAY_DATE_TYPE, EDGE_DATA_FORMAT, EDGE_WEIGHT_FORMAT, EDGE_WEIGHT_TYPE, NODE_COORD_TYPE,
    TYPE,
};
use crate::tsplib_parser::keywords::{
    HeaderKey, ParseError, SectionKind, END_OF_FILE, KEY_COUNT, SECTION_COUNT,
};
use crate::tsplib_parser::laws::{is_consistent, lemma_parsed_is_consistent};
use crate::tsplib_parser::number::Number;
use crate::tsplib_parser::parser_functions::{
    compute_edge_weight_matrix, coords_by_node, coords_name_nodes, demands_by_node,
    demands_name_nodes, display_data_type_of, edge_data_format_of, edge_weight_format_of,
    edge_weight_matrix, edge_weight_type_of_word, node_coord_type_of, order_node_coord,
    order_node_demand_section, parse_instance_capacity, parse_instance_dimension,
    parse_instance_display_data_type, parse_instance_edge_data_format,
    parse_instance_edge_weight_format, parse_instance_edge_weight_type,
    parse_instance_node_coord_type, parse_instance_type, positive_count_of_word, type_of_word,
};
use crate::tsplib_parser::problem_instance::{
    strings_view, Data, DataModel, InstanceModel, Specification, SpecificationModel, TSPInstance,
};
use crate::tsplib_parser::scan::{has_word_at, run_end, skip_run, word_at, ByteClass};
use crate::tsplib_parser::sections::{parse_instance_section, rows_view, section_at};

verus! {

/// The value of a key that the header must hold.
pub open spec fn needed(h: HeaderModel, key: HeaderKey) -> Result<Seq<u8>, ParseError> {
    match h.values[key.index()] {
        Some(value) => Ok(value),
        None => Err(ParseError::MissingKey(key)),
    }
}

/// The problem type of a header.
pub open spec fn type_field(h: HeaderModel) -> Result<TYPE, ParseError> {
    match needed(h, HeaderKey::Type) {
        Err(e) => Err(e),
        Ok(word) => match type_of_word(word) {
            Some(kind) => Ok(kind),
            None => Err(ParseError::BadValue(HeaderKey::Type)),
        },
    }
}

/// The count that a header gives for a key: a whole number above zero.
pub open spec fn count_field(h: HeaderModel, key: HeaderKey) -> Result<usize, ParseError> {
    match needed(h, key) {
        Err(e) => Err(e),
        Ok(word) => match positive_count_of_word(word) {
            Some(count) => Ok(count),
            None => Err(ParseError::BadValue(key)),
        },
    }
}

/// The weight type of a header.
pub open spec fn edge_weight_type_field(h: HeaderModel) -> Result<EDGE_WEIGHT_TYPE, ParseError> {
    match needed(h, HeaderKey::EdgeWeightType) {
        Err(e) => Err(e),
        Ok(word) => match edge_weight_type_of_word(word) {
            Some(kind) => Ok(kind),
            None => Err(ParseError::BadValue(HeaderKey::EdgeWeightType)),
        },
    }
}

/// The layout of a header: none where the header names none, and an error
/// where it holds a word that names none.
pub open spec fn edge_weight_format_field(h: HeaderModel) -> Result<
    Option<EDGE_WEIGHT_FORMAT>,
    ParseError,
> {
    edge_weight_format_of(h.values[HeaderKey::EdgeWeightFormat.index()])
}

/// The edge format of a header: none where the header names none, and an
/// error where it holds a word that names none.
pub open spec fn edge_data_format_field(h: HeaderModel) -> Result<
    Option<EDGE_DATA_FORMAT>,
    ParseError,
> {
    edge_data_format_of(h.values[HeaderKey::EdgeDataFormat.index()])
}

/// The display type of a header.
pub open spec fn display_data_type_field(h: HeaderModel) -> Result<DISPLAY_DATE_TYPE, ParseError> {
    match display_data_type_of(h.values[HeaderKey::DisplayDataType.index()]) {
        Some(kind) => Ok(kind),
        None => Err(ParseError::BadValue(HeaderKey::DisplayDataType)),
    }
}

/// The coordinate type of a header.
pub open spec fn node_coord_type_field(h: HeaderModel) -> Result<NODE_COORD_TYPE, ParseError> {
    match node_coord_type_of(h.values[HeaderKey::NodeCoordType.index()]) {
        Some(kind) => Ok(kind),
        None => Err(ParseError::BadValue(HeaderKey::NodeCoordType)),
    }
}

/// The texts that a list of strings of bytes encode.
pub open spec fn decoded_texts(list: Seq<Seq<u8>>) -> Seq<Seq<char>> {
    Seq::new(list.len(), |k: int| decode_utf8(list[k]))
}

/// The specification that the lines of a header make: the header must hold
/// a name, a type, a dimension, a capacity and a weight type, and each value
/// must be one that its key can have. The first fault, in the order of the
/// fields, is the error.
pub open spec fn specification_of(h: HeaderModel) -> Result<SpecificationModel, ParseError> {
    if needed(h, HeaderKey::Name) is Err {
        Err(needed(h, HeaderKey::Name)->Err_0)
    } else if type_field(h) is Err {
        Err(type_field(h)->Err_0)
    } else if count_field(h, HeaderKey::Dimension) is Err {
        Err(count_field(h, HeaderKey::Dimension)->Err_0)
    } else if count_field(h, HeaderKey::Capacity) is Err {
        Err(count_field(h, HeaderKey::Capacity)->Err_0)
    } else if edge_weight_type_field(h) is Err {
        Err(edge_weight_type_field(h)->Err_0)
    } else if edge_weight_format_field(h) is Err {
        Err(edge_weight_format_field(h)->Err_0)
    } else if edge_data_format_field(h) is Err {
        Err(edge_data_format_field(h)->Err_0)
    } else if display_data_type_field(h) is Err {
        Err(display_data_type_field(h)->Err_0)
    } else if node_coord_type_field(h) is Err {
        Err(node_coord_type_field(h)->Err_0)
    } else {
        Ok(
            SpecificationModel {
                name: decode_utf8(needed(h, HeaderKey::Name)->Ok_0),
                data_type: type_field(h)->Ok_0,
                comment: decoded_texts(h.comments),
                dimension: count_field(h, HeaderKey::Dimension)->Ok_0,
                capacity: count_field(h, HeaderKey::Capacity)->Ok_0,
                edge_weight_type: edge_weight_type_field(h)->Ok_0,
                edge_weight_format: edge_weight_format_field(h)->Ok_0,
                edge_data_format: edge_data_format_field(h)->Ok_0,
                display_data_type: display_data_type_field(h)->Ok_0,
                node_coord_type: node_coord_type_field(h)->Ok_0,
            },
        )
    }
}

/// The header of a text: its lines, read from the start, as a header, and
/// the place where the lines end.
pub open spec fn specification_at(s: Seq<u8>) -> Result<(SpecificationModel, int), ParseError> {
    match header_from(s, 0, empty_header()) {
        Err(e) => Err(e),
        Ok((h, end)) => match specification_of(h) {
            Err(e) => Err(e),
            Ok(specification) => Ok((specification, end)),
        },
    }
}

/// What the sections of a text were found to hold: the rows of each
/// section, by the place of the section among the sections.
pub type SectionsModel = Seq<Option<Seq<Seq<Number>>>>;

/// No section.
pub open spec fn no_sections() -> SectionsModel {
    Seq::new(SECTION_COUNT as nat, |k: int| None)
}

/// The first of the sections from place `k` on that begins behind the white
/// space at `pos`: the place of the section among the sections, its rows,
/// and the place behind them.
pub open spec fn first_section_at(s: Seq<u8>, pos: int, k: int) -> Option<
    (int, Seq<Seq<Number>>, int),
>
    decreases SECTION_COUNT - k,
{
    if k < 0 || k >= SECTION_COUNT {
        None
    } else {
        match section_at(s, pos, SectionKind::at(k).text()) {
            Some((rows, end)) => Some((k, rows, end)),
            None => first_section_at(s, pos, k + 1),
        }
    }
}

/// The sections of the text from `pos` on, added to what was found before.
/// The sections end at the end of the text or at the word that marks it;
/// anything else that is no section is an error, and so is a section that
/// comes twice.
pub open spec fn sections_from(s: Seq<u8>, pos: int, found: SectionsModel) -> Result<
    SectionsModel,
    ParseError,
>
    decreases s.len() - pos,
{
    let p = run_end(s, pos, ByteClass::Space);
    if p >= s.len() || has_word_at(s, p, END_OF_FILE.spec_bytes()) {
        Ok(found)
    } else {
        match first_section_at(s, pos, 0) {
            None => Err(ParseError::UnknownSection),
            Some((k, rows, end)) => if !(0 <= pos < end <= s.len()) {
                Err(ParseError::UnknownSection)
            } else if found[k] is Some {
                Err(ParseError::DuplicateSection(SectionKind::at(k)))
            } else {
                sections_from(s, end, found.update(k, Some(rows)))
            },
        }
    }
}

/// The table of the coordinates: the rows of the section, read with two
/// coordinates or, where the header says so, with three, and put by node.
/// A row that names no node of the instance is an error.
pub open spec fn coords_field(found: SectionsModel, sp: SpecificationModel) -> Result<
    Option<Seq<Coord>>,
    ParseError,
> {
    match found[SectionKind::NodeCoord.index()] {
        None => Ok(None),
        Some(rows) => {
            let nodes = decoded(
                rows,
                coord_rule(sp.node_coord_type == NODE_COORD_TYPE::THREED_COORDS),
            );
            if coords_name_nodes(nodes, sp.dimension as int) {
                Ok(Some(coords_by_node(nodes, sp.dimension as int)))
            } else {
                Err(ParseError::BadSection(SectionKind::NodeCoord))
            }
        },
    }
}

/// The table of the demands: the rows of the section put by node. A row
/// that names no node of the instance is an error.
pub open spec fn demands_field(found: SectionsModel, sp: SpecificationModel) -> Result<
    Option<Seq<(Node, usize)>>,
    ParseError,
> {
    match found[SectionKind::Demand.index()] {
        None => Ok(None),
        Some(rows) => {
            let pairs = decoded(rows, demand_rule());
            if demands_name_nodes(pairs, sp.dimension as int) {
                Ok(Some(demands_by_node(pairs, sp.dimension as int)))
            } else {
                Err(ParseError::BadSection(SectionKind::Demand))
            }
        },
    }
}

/// The full matrix of the weights, for an instance with explicit weights
/// and a weight section: the header must name the layout, and the section
/// must hold as many weights as the layout asks for. Where the weights are
/// not explicit the section is passed over.
pub open spec fn weights_field(found: SectionsModel, sp: SpecificationModel) -> Result<
    Option<Seq<Seq<usize>>>,
    ParseError,
> {
    if sp.edge_weight_type != EDGE_WEIGHT_TYPE::EXPLICIT {
        Ok(None)
    } else {
        match found[SectionKind::EdgeWeight.index()] {
            None => Ok(None),
            Some(rows) => match sp.edge_weight_format {
                None => Err(ParseError::MissingKey(HeaderKey::EdgeWeightFormat)),
                Some(format) => match edge_weight_matrix(
                    Some(decoded(rows, list_rule())),
                    format,
                    sp.dimension as int,
                ) {
                    Some(m) => Ok(Some(m)),
                    None => Err(ParseError::BadSection(SectionKind::EdgeWeight)),
                },
            },
        }
    }
}

/// What the rows of a section hold by a rule, where the text has the
/// section.
pub open spec fn decoded_section<T>(
    rows: Option<Seq<Seq<Number>>>,
    rule: spec_fn(Seq<Number>) -> Option<T>,
) -> Option<Seq<T>> {
    match rows {
        Some(r) => Some(decoded(r, rule)),
        None => None,
    }
}

/// The data that the sections of a text make under a header. The first
/// fault, of the coordinates, the demands and the weights in this order, is
/// the error.
pub open spec fn data_of(found: SectionsModel, sp: SpecificationModel) -> Result<
    DataModel,
    ParseError,
> {
    if coords_field(found, sp) is Err {
        Err(coords_field(found, sp)->Err_0)
    } else if demands_field(found, sp) is Err {
        Err(demands_field(found, sp)->Err_0)
    } else if weights_field(found, sp) is Err {
        Err(weights_field(found, sp)->Err_0)
    } else {
        Ok(
            DataModel {
                node_coord_section: coords_field(found, sp)->Ok_0,
                depot_section: decoded_section(found[SectionKind::Depot.index()], depot_rule()),
                demand_section: demands_field(found, sp)->Ok_0,
                edge_data_section: decoded_section(
                    found[SectionKind::EdgeData.index()],
                    edge_rule(sp.edge_data_format == Some(EDGE_DATA_FORMAT::EDGE_LIST)),
                ),
                fixed_edges_section: decoded_section(
                    found[SectionKind::FixedEdge.index()],
                    edge_rule(true),
                ),
                display_data_section: decoded_section(
                    found[SectionKind::DisplayData.index()],
                    coord_rule(false),
                ),
                tour_section: decoded_section(found[SectionKind::Tour.index()], list_rule()),
                edge_weight_section: weights_field(found, sp)->Ok_0,
            },
        )
    }
}

/// The data of a text under a header, with the sections read from `pos`
/// on.
pub open spec fn data_at(s: Seq<u8>, pos: int, sp: SpecificationModel) -> Result<
    DataModel,
    ParseError,
> {
    match sections_from(s, pos, no_sections()) {
        Err(e) => Err(e),
        Ok(found) => data_of(found, sp),
    }
}

/// The instance that a text describes, or why it describes none.
pub open spec fn parsed(s: Seq<u8>) -> Result<InstanceModel, ParseError> {
    match specification_at(s) {
        Err(e) => Err(e),
        Ok((specification, end)) => match data_at(s, end, specification) {
            Err(e) => Err(e),
            Ok(data) => Ok(InstanceModel { specification, data }),
        },
    }
}

/// A header and the place where its lines end, or an error, with the
/// header as what it holds.
pub open spec fn specification_result_view(result: Result<(Specification, usize), ParseError>) -> Result<
    (SpecificationModel, int),
    ParseError,
> {
    match result {
        Ok((specification, end)) => Ok((specification@, end as int)),
        Err(e) => Err(e),
    }
}

/// The data, or an error, with the data as what it holds.
pub open spec fn data_result_view(result: Result<Data, ParseError>) -> Result<DataModel, ParseError> {
    match result {
        Ok(data) => Ok(data@),
        Err(e) => Err(e),
    }
}

/// An instance, or an error, with the instance as what it holds.
pub open spec fn instance_result_view(result: Result<TSPInstance, ParseError>) -> Result<
    InstanceModel,
    ParseError,
> {
    match result {
        Ok(instance) => Ok(instance@),
        Err(e) => Err(e),
    }
}

/// The value of a key that the header must hold.
pub fn needed_value<'a>(header: &Header<'a>, key: HeaderKey) -> (value: Result<&'a str, ParseError>)
    requires
        header.values@.len() == KEY_COUNT,
    ensures
        match value {
            Ok(v) => needed(header@, key) == Ok::<Seq<u8>, ParseError>(v.spec_bytes()),
            Err(e) => needed(header@, key) == Err::<Seq<u8>, ParseError>(e),
        },
{
    match header.values[key.position()] {
        Some(value) => Ok(value),
        None => Err(ParseError::MissingKey(key)),
    }
}

/// The specification that the lines of a header make.
pub fn build_specification(header: &Header) -> (result: Result<Specification, ParseError>)
    requires
        header.values@.len() == KEY_COUNT,
    ensures
        match result {
            Ok(specification) => specification_of(header@) == Ok::<SpecificationModel, ParseError>(
                specification@,
            ),
            Err(e) => specification_of(header@) == Err::<SpecificationModel, ParseError>(e),
        },
{
    let name = match needed_value(header, HeaderKey::Name) {
        Ok(value) => {
            proof {
                encode_utf8_decode_utf8(value@);
            }
            value.to_owned()
        },
        Err(e) => {
            return Err(e);
        },
    };
    let data_type = match needed_value(header, HeaderKey::Type) {
        Err(e) => {
            return Err(e);
        },
        Ok(word) => match parse_instance_type(word) {
            Some(kind) => kind,
            None => {
                return Err(ParseError::BadValue(HeaderKey::Type));
            },
        },
    };
    let dimension = match needed_value(header, HeaderKey::Dimension) {
        Err(e) => {
            return Err(e);
        },
        Ok(word) => match parse_instance_dimension(word) {
            Some(count) => count,
            None => {
                return Err(ParseError::BadValue(HeaderKey::Dimension));
            },
        },
    };
    let capacity = match needed_value(header, HeaderKey::Capacity) {
        Err(e) => {
            return Err(e);
        },
        Ok(word) => match parse_instance_capacity(word) {
            Some(count) => count,
            None => {
                return Err(ParseError::BadValue(HeaderKey::Capacity));
            },
        },
    };
    let edge_weight_type = match needed_value(header, HeaderKey::EdgeWeightType) {
        Err(e) => {
            return Err(e);
        },
        Ok(word) => match parse_instance_edge_weight_type(word) {
            Some(kind) => kind,
            None => {
                return Err(ParseError::BadValue(HeaderKey::EdgeWeightType));
            },
        },
    };
    let format_word = header.values[HeaderKey::EdgeWeightFormat.position()];
    let edge_weight_format = match parse_instance_edge_weight_format(format_word) {
        Ok(format) => format,
        Err(e) => {
            return Err(e);
        },
    };
    let edges_word = header.values[HeaderKey::EdgeDataFormat.position()];
    let edge_data_format = match parse_instance_edge_data_format(edges_word) {
        Ok(format) => format,
        Err(e) => {
            return Err(e);
        },
    };
    let display_word = header.values[HeaderKey::DisplayDataType.position()];
    let display_data_type = match parse_instance_display_data_type(display_word) {
        Some(kind) => kind,
        None => {
            return Err(ParseError::BadValue(HeaderKey::DisplayDataType));
        },
    };
    let coords_word = header.values[HeaderKey::NodeCoordType.position()];
    let node_coord_type = match parse_instance_node_coord_type(coords_word) {
        Some(kind) => kind,
        None => {
            return Err(ParseError::BadValue(HeaderKey::NodeCoordType));
        },
    };
    let mut comment: Vec<String> = Vec::new();
    let mut k: usize = 0;
    while k < header.comments.len()
        invariant
            k <= header.comments@.len(),
            comment@.len() == k,
            forall|q: int|
                0 <= q < k ==> (#[trigger] comment@[q])@ == decode_utf8(
                    header.comments@[q].spec_bytes(),
                ),
        decreases header.comments@.len() - k,
    {
        proof {
            encode_utf8_decode_utf8(header.comments@[k as int]@);
        }
        comment.push(header.comments[k].to_owned());
        k += 1;
    }
    proof {
        assert(strings_view(&comment) =~= decoded_texts(header@.comments));
    }
    Ok(
        Specification {
            name,
            data_type,
            comment,
            dimension,
            capacity,
            edge_weight_type,
            edge_weight_format,
            edge_data_format,
            display_data_type,
            node_coord_type,
        },
    )
}

/// Reads the header of a text: the header, and the place where its lines
/// end.
pub fn parse_specification(input: &str) -> (result: Result<(Specification, usize), ParseError>)
    ensures
        specification_result_view(result) == specification_at(input.spec_bytes()),
        result matches Ok((_, end)) ==> end <= input.spec_bytes().len(),
{
    match read_header(input, 0) {
        Err(e) => Err(e),
        Ok((header, end)) => match build_specification(&header) {
            Err(e) => Err(e),
            Ok(specification) => Ok((specification, end)),
        },
    }
}

/// What the sections of a text were found to hold.
pub open spec fn sections_view(found: &Vec<Option<Vec<Vec<Number>>>>) -> SectionsModel {
    Seq::new(
        found@.len(),
        |k: int|
            match found@[k] {
                Some(rows) => Some(rows_view(&rows)),
                None => None,
            },
    )
}

/// Reads the first of the sections that begins behind the white space at
/// `pos`.
pub fn read_section(text: &str, pos: usize) -> (read: Option<(usize, Vec<Vec<Number>>, usize)>)
    requires
        pos <= text.spec_bytes().len(),
    ensures
        match read {
            Some((k, rows, end)) => first_section_at(text.spec_bytes(), pos as int, 0) == Some(
                (k as int, rows_view(&rows), end as int),
            ) && k < SECTION_COUNT && pos < end <= text.spec_bytes().len(),
            None => first_section_at(text.spec_bytes(), pos as int, 0) is None,
        },
{
    let mut k: usize = 0;
    while k < SECTION_COUNT
        invariant
            k <= SECTION_COUNT,
            pos <= text.spec_bytes().len(),
            first_section_at(text.spec_bytes(), pos as int, 0) == first_section_at(
                text.spec_bytes(),
                pos as int,
                k as int,
            ),
        decreases SECTION_COUNT - k,
    {
        let kind = SectionKind::from_position(k);
        match parse_instance_section(text, pos, kind.word()) {
            Some((rows, end)) => {
                return Some((k, rows, end));
            },
            None => {},
        }
        k += 1;
    }
    None
}

/// Reads the sections of the text from `pos` on.
pub fn read_sections(text: &str, pos: usize) -> (result: Result<
    Vec<Option<Vec<Vec<Number>>>>,
    ParseError,
>)
    requires
        pos <= text.spec_bytes().len(),
    ensures
        match result {
            Ok(found) => sections_from(text.spec_bytes(), pos as int, no_sections()) == Ok::<
                SectionsModel,
                ParseError,
            >(sections_view(&found)) && found@.len() == SECTION_COUNT,
            Err(e) => sections_from(text.spec_bytes(), pos as int, no_sections()) == Err::<
                SectionsModel,
                ParseError,
            >(e),
        },
{
    let bytes = text.as_bytes();
    let n = bytes.len();
    let mut found: Vec<Option<Vec<Vec<Number>>>> = Vec::new();
    let mut k: usize = 0;
    while k < SECTION_COUNT
        invariant
            k <= SECTION_COUNT,
            found@.len() == k,
            forall|q: int| 0 <= q < k ==> #[trigger] found@[q] is None,
        decreases SECTION_COUNT - k,
    {
        found.push(None);
        k += 1;
    }
    proof {
        assert(sections_view(&found) =~= no_sections());
    }
    let mut end: usize = pos;
    loop
        invariant_except_break
            sections_from(bytes@, end as int, sections_view(&found)) == sections_from(
                bytes@,
                pos as int,
                no_sections(),
            ),
        invariant
            bytes@ == text.spec_bytes(),
            pos <= end <= bytes@.len(),
            n == bytes@.len(),
            found@.len() == SECTION_COUNT,
        ensures
            found@.len() == SECTION_COUNT,
            sections_from(bytes@, pos as int, no_sections()) == Ok::<SectionsModel, ParseError>(
                sections_view(&found),
            ),
        decreases bytes@.len() - end,
    {
        let p = skip_run(bytes, end, ByteClass::Space);
        if p >= n || word_at(bytes, p, END_OF_FILE.as_bytes()) {
            break;
        }
        match read_section(text, end) {
            None => {
                return Err(ParseError::UnknownSection);
            },
            Some((k, rows, next)) => {
                let ghost before = sections_view(&found);
                if found[k].is_some() {
                    proof {
                        assert(before[k as int] is Some);
                    }
                    return Err(ParseError::DuplicateSection(SectionKind::from_position(k)));
                }
                proof {
                    assert(before[k as int] is None);
                }
                let ghost held = rows_view(&rows);
                found[k] = Some(rows);
                proof {
                    assert(sections_view(&found) =~= before.update(k as int, Some(held)));
                }
                end = next;
            },
        }
    }
    Ok(found)
}

/// Whether each row names a node from 1 to `n`.
pub fn check_coords_name_nodes(rows: &Vec<Coord>, n: usize) -> (ok: bool)
    ensures
        ok == coords_name_nodes(rows@, n as int),
{
    let mut k: usize = 0;
    while k < rows.len()
        invariant
            k <= rows.len(),
            forall|q: int| 0 <= q < k ==> 1 <= (#[trigger] rows@[q]).id() <= n,
        decreases rows.len() - k,
    {
        let id = rows[k].get_id();
        if id < 1 || id > n {
            assert(!(1 <= rows@[k as int].id() <= n));
            return false;
        }
        k += 1;
    }
    true
}

/// Whether each row names a node from 1 to `n`.
pub fn check_demands_name_nodes(rows: &Vec<(Node, usize)>, n: usize) -> (ok: bool)
    ensures
        ok == demands_name_nodes(rows@, n as int),
{
    let mut k: usize = 0;
    while k < rows.len()
        invariant
            k <= rows.len(),
            forall|q: int| 0 <= q < k ==> 1 <= (#[trigger] rows@[q]).0 <= n,
        decreases rows.len() - k,
    {
        let id = rows[k].0;
        if id < 1 || id > n {
            assert(!(1 <= rows@[k as int].0 <= n));
            return false;
        }
        k += 1;
    }
    true
}

/// Whether the header names the edge list as the format of the edges.
pub fn is_edge_list(format: Option<EDGE_DATA_FORMAT>) -> (edge_list: bool)
    ensures
        edge_list == (format == Some(EDGE_DATA_FORMAT::EDGE_LIST)),
{
    match format {
        Some(EDGE_DATA_FORMAT::EDGE_LIST) => true,
        _ => false,
    }
}

/// Whether the header says that the nodes have three coordinates.
pub fn is_in_space(kind: NODE_COORD_TYPE) -> (in_space: bool)
    ensures
        in_space == (kind == NODE_COORD_TYPE::THREED_COORDS),
{
    match kind {
        NODE_COORD_TYPE::THREED_COORDS => true,
        _ => false,
    }
}

/// The data that the sections of a text make under a header.
pub fn build_data(found: &Vec<Option<Vec<Vec<Number>>>>, specification: &Specification) -> (result:
    Result<Data, ParseError>)
    requires
        found@.len() == SECTION_COUNT,
    ensures
        data_result_view(result) == data_of(sections_view(found), specification@),
{
    let ghost all = sections_view(found);
    let ghost sp = specification@;
    let n = specification.dimension;
    let node_coord_section = match &found[SectionKind::NodeCoord.position()] {
        None => None,
        Some(rows) => {
            let nodes = decode_coords(rows, is_in_space(specification.node_coord_type));
            if !check_coords_name_nodes(&nodes, n) {
                return Err(ParseError::BadSection(SectionKind::NodeCoord));
            }
            order_node_coord(&Some(nodes), &n)
        },
    };
    assert(coords_field(all, sp) == Ok::<Option<Seq<Coord>>, ParseError>(
        match node_coord_section {
            Some(t) => Some(t@),
            None => None,
        },
    ));
    let demand_section = match &found[SectionKind::Demand.position()] {
        None => None,
        Some(rows) => {
            let pairs = decode_demands(rows);
            if !check_demands_name_nodes(&pairs, n) {
                return Err(ParseError::BadSection(SectionKind::Demand));
            }
            order_node_demand_section(&Some(pairs), &n)
        },
    };
    assert(demands_field(all, sp) == Ok::<Option<Seq<(Node, usize)>>, ParseError>(
        match demand_section {
            Some(t) => Some(t@),
            None => None,
        },
    ));
    let edge_weight_section = if !specification.edge_weight_type.is_explicit() {
        None
    } else {
        match &found[SectionKind::EdgeWeight.position()] {
            None => None,
            Some(rows) => match specification.edge_weight_format {
                None => {
                    return Err(ParseError::MissingKey(HeaderKey::EdgeWeightFormat));
                },
                Some(format) => {
                    let weights = decode_lists(rows, true);
                    match compute_edge_weight_matrix(Some(weights), format, n) {
                        Some(m) => Some(m),
                        None => {
                            return Err(ParseError::BadSection(SectionKind::EdgeWeight));
                        },
                    }
                },
            },
        }
    };
    assert(weights_field(all, sp) == Ok::<Option<Seq<Seq<usize>>>, ParseError>(
        match edge_weight_section {
            Some(m) => Some(matrix_view(&m)),
            None => None,
        },
    ));
    let depot_section = match &found[SectionKind::Depot.position()] {
        None => None,
        Some(rows) => Some(decode_depots(rows)),
    };
    let edge_data_section = match &found[SectionKind::EdgeData.position()] {
        None => None,
        Some(rows) => Some(decode_edges(rows, is_edge_list(specification.edge_data_format))),
    };
    let fixed_edges_section = match &found[SectionKind::FixedEdge.position()] {
        None => None,
        Some(rows) => Some(decode_edges(rows, true)),
    };
    let display_data_section = match &found[SectionKind::DisplayData.position()] {
        None => None,
        Some(rows) => Some(decode_coords(rows, false)),
    };
    let tour_section = match &found[SectionKind::Tour.position()] {
        None => None,
        Some(rows) => Some(decode_lists(rows, false)),
    };
    Ok(
        Data {
            node_coord_section,
            depot_section,
            demand_section,
            edge_data_section,
            fixed_edges_section,
            display_data_section,
            tour_section,
            edge_weight_section,
        },
    )
}

/// Reads the data sections of a text from `pos` on, under a header.
pub fn parse_data(input: &str, pos: usize, specification: &Specification) -> (result: Result<
    Data,
    ParseError,
>)
    requires
        pos <= input.spec_bytes().len(),
    ensures
        data_result_view(result) == data_at(input.spec_bytes(), pos as int, specification@),
{
    match read_sections(input, pos) {
        Err(e) => Err(e),
        Ok(found) => build_data(&found, specification),
    }
}

/// Reads an instance from its text. The instance that is read is
/// consistent.
pub fn parse(input: &str) -> (result: Result<TSPInstance, ParseError>)
    ensures
        instance_result_view(result) == parsed(input.spec_bytes()),
        result matches Ok(instance) ==> is_consistent(instance@),
{
    proof {
        lemma_parsed_is_consistent(input.spec_bytes());
    }
    match parse_specification(input) {
        Err(e) => Err(e),
        Ok((specification, end)) => match parse_data(input, end, &specification) {
            Err(e) => Err(e),
            Ok(data) => Ok(TSPInstance { specification, data }),
        },
    }
}

} // verus!
