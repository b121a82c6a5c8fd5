//! The values of the keys of the header, and the rows of the data sections.

use vstd::prelude::*;
use vstd::string::StringSliceAdditionalSpecFns;
use crate::model::joined::joined;
use crate::model::layout::{expand, matrix_view, stream_len};
use crate::model::utils::{flatten_rows, from_hmatrix_to_fmatrix, split_into_runs};
use crate::tsplib_parser::custom_types::{Coord, Node};
use crate::tsplib_parser::keyword_values::{
    DISPLAY_DATE_TYPE, EDGE_DATA_FORMAT, EDGE_WEIGHT_FORMAT, EDGE_WEIGHT_TYPE, NODE_COORD_TYPE,
    TYPE,
};
use crate::tsplib_parser::keywords::{HeaderKey, ParseError};
use crate::tsplib_parser::number::{digits_value, read_digits};
use crate::tsplib_parser::scan::{bytes_equal, lemma_run_end, run_end, skip_run, ByteClass};

verus! {

/// The problem type that a word names.
pub open spec fn type_of_word(word: Seq<u8>) -> Option<TYPE> {
    if word == "TSP".spec_bytes() {
        Some(TYPE::TSP)
    } else if word == "ATSP".spec_bytes() {
        Some(TYPE::ATSP)
    } else if word == "SOP".spec_bytes() {
        Some(TYPE::SOP)
    } else if word == "HCP".spec_bytes() {
        Some(TYPE::HCP)
    } else if word == "CVRP".spec_bytes() {
        Some(TYPE::CVRP)
    } else if word == "TOUR".spec_bytes() {
        Some(TYPE::TOUR)
    } else {
        None
    }
}

/// The weight type that a word names.
pub open spec fn edge_weight_type_of_word(word: Seq<u8>) -> Option<EDGE_WEIGHT_TYPE> {
    if word == "EXPLICIT".spec_bytes() {
        Some(EDGE_WEIGHT_TYPE::EXPLICIT)
    } else if word == "EUC_2D".spec_bytes() {
        Some(EDGE_WEIGHT_TYPE::EUC_2D)
    } else if word == "EUC_3D".spec_bytes() {
        Some(EDGE_WEIGHT_TYPE::EUC_3D)
    } else if word == "MAX_2D".spec_bytes() {
        Some(EDGE_WEIGHT_TYPE::MAX_2D)
    } else if word == "MAX_3D".spec_bytes() {
        Some(EDGE_WEIGHT_TYPE::MAX_3D)
    } else if word == "MAN_2D".spec_bytes() {
        Some(EDGE_WEIGHT_TYPE::MAN_2D)
    } else if word == "MAN_3D".spec_bytes() {
        Some(EDGE_WEIGHT_TYPE::MAN_3D)
    } else if word == "CEIL_2D".spec_bytes() {
        Some(EDGE_WEIGHT_TYPE::CEIL_2D)
    } else if word == "GEO".spec_bytes() {
        Some(EDGE_WEIGHT_TYPE::GEO)
    } else if word == "ATT".spec_bytes() {
        Some(EDGE_WEIGHT_TYPE::ATT)
    } else if word == "XRAY1".spec_bytes() {
        Some(EDGE_WEIGHT_TYPE::XRAY1)
    } else if word == "XRAY2".spec_bytes() {
        Some(EDGE_WEIGHT_TYPE::XRAY2)
    } else if word == "SPECIAL".spec_bytes() {
        Some(EDGE_WEIGHT_TYPE::SPECIAL)
    } else {
        None
    }
}

/// The layout that a word names.
pub open spec fn edge_weight_format_of_word(word: Seq<u8>) -> Option<EDGE_WEIGHT_FORMAT> {
    if word == "FUNCTION".spec_bytes() {
        Some(EDGE_WEIGHT_FORMAT::FUNCTION)
    } else if word == "FULL_MATRIX".spec_bytes() {
        Some(EDGE_WEIGHT_FORMAT::FULL_MATRIX)
    } else if word == "UPPER_ROW".spec_bytes() {
        Some(EDGE_WEIGHT_FORMAT::UPPER_ROW)
    } else if word == "LOWER_ROW".spec_bytes() {
        Some(EDGE_WEIGHT_FORMAT::LOWER_ROW)
    } else if word == "UPPER_DIAG_ROW".spec_bytes() {
        Some(EDGE_WEIGHT_FORMAT::UPPER_DIAG_ROW)
    } else if word == "LOWER_DIAG_ROW".spec_bytes() {
        Some(EDGE_WEIGHT_FORMAT::LOWER_DIAG_ROW)
    } else if word == "UPPER_COL".spec_bytes() {
        Some(EDGE_WEIGHT_FORMAT::UPPER_COL)
    } else if word == "LOWER_COL".spec_bytes() {
        Some(EDGE_WEIGHT_FORMAT::LOWER_COL)
    } else if word == "UPPER_DIAG_COL".spec_bytes() {
        Some(EDGE_WEIGHT_FORMAT::UPPER_DIAG_COL)
    } else if word == "LOWER_DIAG_COL".spec_bytes() {
        Some(EDGE_WEIGHT_FORMAT::LOWER_DIAG_COL)
    } else {
        None
    }
}

/// The edge format that a word names.
pub open spec fn edge_data_format_of_word(word: Seq<u8>) -> Option<EDGE_DATA_FORMAT> {
    if word == "EDGE_LIST".spec_bytes() {
        Some(EDGE_DATA_FORMAT::EDGE_LIST)
    } else if word == "ADJ_LIST".spec_bytes() {
        Some(EDGE_DATA_FORMAT::ADJ_LIST)
    } else {
        None
    }
}

/// The coordinate type that a word names.
pub open spec fn node_coord_type_of_word(word: Seq<u8>) -> Option<NODE_COORD_TYPE> {
    if word == "TWOD_COORDS".spec_bytes() {
        Some(NODE_COORD_TYPE::TWOD_COORDS)
    } else if word == "THREED_COORDS".spec_bytes() {
        Some(NODE_COORD_TYPE::THREED_COORDS)
    } else if word == "NO_COORDS".spec_bytes() {
        Some(NODE_COORD_TYPE::NO_COORDS)
    } else {
        None
    }
}

/// The display type that a word names.
pub open spec fn display_data_type_of_word(word: Seq<u8>) -> Option<DISPLAY_DATE_TYPE> {
    if word == "COORD_DISPLAY".spec_bytes() {
        Some(DISPLAY_DATE_TYPE::COORD_DISPLAY)
    } else if word == "TWOD_DISPLAY".spec_bytes() {
        Some(DISPLAY_DATE_TYPE::TWOD_DISPLAY)
    } else if word == "NO_DISPLAY".spec_bytes() {
        Some(DISPLAY_DATE_TYPE::NO_DISPLAY)
    } else {
        None
    }
}

/// The whole number that a text writes in digits, with a plus sign before
/// them or without; none where the text holds anything else, or no digit,
/// or where the number is larger than the largest number.
pub open spec fn count_of_word(word: Seq<u8>) -> Option<usize> {
    let from: int = if word.len() > 0 && word[0] == 43 { 1 } else { 0 };
    if from < word.len() && run_end(word, from, ByteClass::Digit) == word.len() && digits_value(
        word.subrange(from, word.len() as int),
    ) <= usize::MAX {
        Some(digits_value(word.subrange(from, word.len() as int)) as usize)
    } else {
        None
    }
}

/// The coordinate type of a header: the one that the word names, and no
/// coordinates where the header has no word for it.
pub open spec fn node_coord_type_of(word: Option<Seq<u8>>) -> Option<NODE_COORD_TYPE> {
    match word {
        Some(w) => node_coord_type_of_word(w),
        None => Some(NODE_COORD_TYPE::NO_COORDS),
    }
}

/// The display type of a header: the one that the word names, and no
/// display where the header has no word for it.
pub open spec fn display_data_type_of(word: Option<Seq<u8>>) -> Option<DISPLAY_DATE_TYPE> {
    match word {
        Some(w) => display_data_type_of_word(w),
        None => Some(DISPLAY_DATE_TYPE::NO_DISPLAY),
    }
}

/// The layout of a header: none where the header has no word for it, and
/// an error where it has a word that names no layout.
pub open spec fn edge_weight_format_of(word: Option<Seq<u8>>) -> Result<
    Option<EDGE_WEIGHT_FORMAT>,
    ParseError,
> {
    match word {
        None => Ok(None),
        Some(w) => match edge_weight_format_of_word(w) {
            Some(format) => Ok(Some(format)),
            None => Err(ParseError::BadValue(HeaderKey::EdgeWeightFormat)),
        },
    }
}

/// The edge format of a header: none where the header has no word for it,
/// and an error where it has a word that names no format.
pub open spec fn edge_data_format_of(word: Option<Seq<u8>>) -> Result<
    Option<EDGE_DATA_FORMAT>,
    ParseError,
> {
    match word {
        None => Ok(None),
        Some(w) => match edge_data_format_of_word(w) {
            Some(format) => Ok(Some(format)),
            None => Err(ParseError::BadValue(HeaderKey::EdgeDataFormat)),
        },
    }
}

/// The count that a text writes: a whole number above zero. There is none
/// where the text writes no whole number, or zero, or a number larger than
/// the largest number.
pub open spec fn positive_count_of_word(word: Seq<u8>) -> Option<usize> {
    match count_of_word(word) {
        Some(count) => if count > 0 {
            Some(count)
        } else {
            None
        },
        None => None,
    }
}

/// The bytes of a word, where there is one.
pub open spec fn word_bytes(word: Option<&str>) -> Option<Seq<u8>> {
    match word {
        Some(w) => Some(w.spec_bytes()),
        None => None,
    }
}

/// The problem type that a word names; none for a word that names none.
pub fn type_from_bytes(word: &[u8]) -> (kind: Option<TYPE>)
    ensures
        kind == type_of_word(word@),
{
    if bytes_equal(word, "TSP".as_bytes()) {
        Some(TYPE::TSP)
    } else if bytes_equal(word, "ATSP".as_bytes()) {
        Some(TYPE::ATSP)
    } else if bytes_equal(word, "SOP".as_bytes()) {
        Some(TYPE::SOP)
    } else if bytes_equal(word, "HCP".as_bytes()) {
        Some(TYPE::HCP)
    } else if bytes_equal(word, "CVRP".as_bytes()) {
        Some(TYPE::CVRP)
    } else if bytes_equal(word, "TOUR".as_bytes()) {
        Some(TYPE::TOUR)
    } else {
        None
    }
}

/// The weight type that a word names; none for a word that names none.
pub fn edge_weight_type_from_bytes(word: &[u8]) -> (kind: Option<EDGE_WEIGHT_TYPE>)
    ensures
        kind == edge_weight_type_of_word(word@),
{
    if bytes_equal(word, "EXPLICIT".as_bytes()) {
        Some(EDGE_WEIGHT_TYPE::EXPLICIT)
    } else if bytes_equal(word, "EUC_2D".as_bytes()) {
        Some(EDGE_WEIGHT_TYPE::EUC_2D)
    } else if bytes_equal(word, "EUC_3D".as_bytes()) {
        Some(EDGE_WEIGHT_TYPE::EUC_3D)
    } else if bytes_equal(word, "MAX_2D".as_bytes()) {
        Some(EDGE_WEIGHT_TYPE::MAX_2D)
    } else if bytes_equal(word, "MAX_3D".as_bytes()) {
        Some(EDGE_WEIGHT_TYPE::MAX_3D)
    } else if bytes_equal(word, "MAN_2D".as_bytes()) {
        Some(EDGE_WEIGHT_TYPE::MAN_2D)
    } else if bytes_equal(word, "MAN_3D".as_bytes()) {
        Some(EDGE_WEIGHT_TYPE::MAN_3D)
    } else if bytes_equal(word, "CEIL_2D".as_bytes()) {
        Some(EDGE_WEIGHT_TYPE::CEIL_2D)
    } else if bytes_equal(word, "GEO".as_bytes()) {
        Some(EDGE_WEIGHT_TYPE::GEO)
    } else if bytes_equal(word, "ATT".as_bytes()) {
        Some(EDGE_WEIGHT_TYPE::ATT)
    } else if bytes_equal(word, "XRAY1".as_bytes()) {
        Some(EDGE_WEIGHT_TYPE::XRAY1)
    } else if bytes_equal(word, "XRAY2".as_bytes()) {
        Some(EDGE_WEIGHT_TYPE::XRAY2)
    } else if bytes_equal(word, "SPECIAL".as_bytes()) {
        Some(EDGE_WEIGHT_TYPE::SPECIAL)
    } else {
        None
    }
}

/// The layout that a word names; none for a word that names none.
pub fn edge_weight_format_from_bytes(word: &[u8]) -> (format: Option<EDGE_WEIGHT_FORMAT>)
    ensures
        format == edge_weight_format_of_word(word@),
{
    if bytes_equal(word, "FUNCTION".as_bytes()) {
        Some(EDGE_WEIGHT_FORMAT::FUNCTION)
    } else if bytes_equal(word, "FULL_MATRIX".as_bytes()) {
        Some(EDGE_WEIGHT_FORMAT::FULL_MATRIX)
    } else if bytes_equal(word, "UPPER_ROW".as_bytes()) {
        Some(EDGE_WEIGHT_FORMAT::UPPER_ROW)
    } else if bytes_equal(word, "LOWER_ROW".as_bytes()) {
        Some(EDGE_WEIGHT_FORMAT::LOWER_ROW)
    } else if bytes_equal(word, "UPPER_DIAG_ROW".as_bytes()) {
        Some(EDGE_WEIGHT_FORMAT::UPPER_DIAG_ROW)
    } else if bytes_equal(word, "LOWER_DIAG_ROW".as_bytes()) {
        Some(EDGE_WEIGHT_FORMAT::LOWER_DIAG_ROW)
    } else if bytes_equal(word, "UPPER_COL".as_bytes()) {
        Some(EDGE_WEIGHT_FORMAT::UPPER_COL)
    } else if bytes_equal(word, "LOWER_COL".as_bytes()) {
        Some(EDGE_WEIGHT_FORMAT::LOWER_COL)
    } else if bytes_equal(word, "UPPER_DIAG_COL".as_bytes()) {
        Some(EDGE_WEIGHT_FORMAT::UPPER_DIAG_COL)
    } else if bytes_equal(word, "LOWER_DIAG_COL".as_bytes()) {
        Some(EDGE_WEIGHT_FORMAT::LOWER_DIAG_COL)
    } else {
        None
    }
}

/// The edge format that a word names; none for a word that names none.
pub fn edge_data_format_from_bytes(word: &[u8]) -> (format: Option<EDGE_DATA_FORMAT>)
    ensures
        format == edge_data_format_of_word(word@),
{
    if bytes_equal(word, "EDGE_LIST".as_bytes()) {
        Some(EDGE_DATA_FORMAT::EDGE_LIST)
    } else if bytes_equal(word, "ADJ_LIST".as_bytes()) {
        Some(EDGE_DATA_FORMAT::ADJ_LIST)
    } else {
        None
    }
}

/// The coordinate type that a word names; none for a word that names none.
pub fn node_coord_type_from_bytes(word: &[u8]) -> (kind: Option<NODE_COORD_TYPE>)
    ensures
        kind == node_coord_type_of_word(word@),
{
    if bytes_equal(word, "TWOD_COORDS".as_bytes()) {
        Some(NODE_COORD_TYPE::TWOD_COORDS)
    } else if bytes_equal(word, "THREED_COORDS".as_bytes()) {
        Some(NODE_COORD_TYPE::THREED_COORDS)
    } else if bytes_equal(word, "NO_COORDS".as_bytes()) {
        Some(NODE_COORD_TYPE::NO_COORDS)
    } else {
        None
    }
}

/// The display type that a word names; none for a word that names none.
pub fn display_data_type_from_bytes(word: &[u8]) -> (kind: Option<DISPLAY_DATE_TYPE>)
    ensures
        kind == display_data_type_of_word(word@),
{
    if bytes_equal(word, "COORD_DISPLAY".as_bytes()) {
        Some(DISPLAY_DATE_TYPE::COORD_DISPLAY)
    } else if bytes_equal(word, "TWOD_DISPLAY".as_bytes()) {
        Some(DISPLAY_DATE_TYPE::TWOD_DISPLAY)
    } else if bytes_equal(word, "NO_DISPLAY".as_bytes()) {
        Some(DISPLAY_DATE_TYPE::NO_DISPLAY)
    } else {
        None
    }
}

/// The whole number that a text writes in digits.
pub fn count_from_bytes(word: &[u8]) -> (count: Option<usize>)
    ensures
        count == count_of_word(word@),
{
    let n = word.len();
    let from: usize = if n > 0 && word[0] == 43 { 1 } else { 0 };
    if from >= n {
        return None;
    }
    let end = skip_run(word, from, ByteClass::Digit);
    if end != n {
        return None;
    }
    proof {
        lemma_run_end(word@, from as int, ByteClass::Digit);
    }
    match read_digits(word, from, n, usize::MAX as u128) {
        Some(v) => Some(v as usize),
        None => None,
    }
}

/// The problem type that the value of the key names; none for a word that
/// names none.
pub fn parse_instance_type(_type: &str) -> (kind: Option<TYPE>)
    ensures
        kind == type_of_word(_type.spec_bytes()),
{
    type_from_bytes(_type.as_bytes())
}

/// The whole number above zero that a text writes in digits.
pub fn positive_count_from_bytes(word: &[u8]) -> (count: Option<usize>)
    ensures
        count == positive_count_of_word(word@),
{
    match count_from_bytes(word) {
        Some(count) => if count > 0 {
            Some(count)
        } else {
            None
        },
        None => None,
    }
}

/// The dimension that the value of the key writes: a whole number above
/// zero. There is none where the value is no whole number, is zero, or is
/// larger than the largest number.
pub fn parse_instance_dimension(_dimension: &str) -> (dimension: Option<usize>)
    ensures
        dimension == positive_count_of_word(_dimension.spec_bytes()),
{
    positive_count_from_bytes(_dimension.as_bytes())
}

/// The capacity that the value of the key writes: a whole number above
/// zero. There is none where the value is no whole number, is zero, or is
/// larger than the largest number.
pub fn parse_instance_capacity(_capacity: &str) -> (capacity: Option<usize>)
    ensures
        capacity == positive_count_of_word(_capacity.spec_bytes()),
{
    positive_count_from_bytes(_capacity.as_bytes())
}

/// The weight type that the value of the key names; none for a word that
/// names none.
pub fn parse_instance_edge_weight_type(_edge_weight_type: &str) -> (kind: Option<EDGE_WEIGHT_TYPE>)
    ensures
        kind == edge_weight_type_of_word(_edge_weight_type.spec_bytes()),
{
    edge_weight_type_from_bytes(_edge_weight_type.as_bytes())
}

/// The layout that the value of the key names, and none where the header
/// has no such key. A word that names no layout is an error.
pub fn parse_instance_edge_weight_format(_edge_weight_format: Option<&str>) -> (format: Result<
    Option<EDGE_WEIGHT_FORMAT>,
    ParseError,
>)
    ensures
        format == edge_weight_format_of(word_bytes(_edge_weight_format)),
{
    match _edge_weight_format {
        None => Ok(None),
        Some(value) => match edge_weight_format_from_bytes(value.as_bytes()) {
            Some(format) => Ok(Some(format)),
            None => Err(ParseError::BadValue(HeaderKey::EdgeWeightFormat)),
        },
    }
}

/// The edge format that the value of the key names, and none where the
/// header has no such key. A word that names no format is an error.
pub fn parse_instance_edge_data_format(_edge_data_format: Option<&str>) -> (format: Result<
    Option<EDGE_DATA_FORMAT>,
    ParseError,
>)
    ensures
        format == edge_data_format_of(word_bytes(_edge_data_format)),
{
    match _edge_data_format {
        None => Ok(None),
        Some(value) => match edge_data_format_from_bytes(value.as_bytes()) {
            Some(format) => Ok(Some(format)),
            None => Err(ParseError::BadValue(HeaderKey::EdgeDataFormat)),
        },
    }
}

/// The coordinate type that the value of the key names, and no coordinates
/// where the header has no such key; none for a word that names none.
pub fn parse_instance_node_coord_type(_node_coord_type: Option<&str>) -> (kind: Option<
    NODE_COORD_TYPE,
>)
    ensures
        kind == node_coord_type_of(word_bytes(_node_coord_type)),
{
    match _node_coord_type {
        Some(value) => node_coord_type_from_bytes(value.as_bytes()),
        None => Some(NODE_COORD_TYPE::NO_COORDS),
    }
}

/// The display type that the value of the key names, and no display where
/// the header has no such key; none for a word that names none.
pub fn parse_instance_display_data_type(_display_data_type: Option<&str>) -> (kind: Option<
    DISPLAY_DATE_TYPE,
>)
    ensures
        kind == display_data_type_of(word_bytes(_display_data_type)),
{
    match _display_data_type {
        Some(value) => display_data_type_from_bytes(value.as_bytes()),
        None => Some(DISPLAY_DATE_TYPE::NO_DISPLAY),
    }
}

/// The row that stands for a node of which the coordinate section says
/// nothing.
pub open spec fn no_coord() -> Coord {
    Coord::Coord2d((0, 0, 0))
}

/// The table of the coordinates of `n` nodes: each row is put at the place
/// of its node, which is the number that the row gives less 1; of two rows
/// for one node the later one stays, and a row that names no node from 1 to
/// `n` is left out.
pub open spec fn coords_by_node(rows: Seq<Coord>, n: int) -> Seq<Coord>
    decreases rows.len(),
{
    if rows.len() == 0 {
        Seq::new(n as nat, |k: int| no_coord())
    } else if 1 <= rows.last().id() <= n {
        coords_by_node(rows.drop_last(), n).update(rows.last().id() - 1, rows.last())
    } else {
        coords_by_node(rows.drop_last(), n)
    }
}

/// The table of the demands of `n` nodes: each row is put at the place of
/// its node, which is the number that the row gives less 1; of two rows for
/// one node the later one stays, and a row that names no node from 1 to `n`
/// is left out. A node of which the section says nothing has the row
/// `(0, 0)`.
pub open spec fn demands_by_node(rows: Seq<(Node, usize)>, n: int) -> Seq<(Node, usize)>
    decreases rows.len(),
{
    if rows.len() == 0 {
        Seq::new(n as nat, |k: int| (0usize, 0usize))
    } else if 1 <= rows.last().0 <= n {
        demands_by_node(rows.drop_last(), n).update(rows.last().0 - 1, rows.last())
    } else {
        demands_by_node(rows.drop_last(), n)
    }
}

/// Each row names a node from 1 to `n`.
pub open spec fn coords_name_nodes(rows: Seq<Coord>, n: int) -> bool {
    forall|k: int| 0 <= k < rows.len() ==> 1 <= (#[trigger] rows[k]).id() <= n
}

/// Each row names a node from 1 to `n`.
pub open spec fn demands_name_nodes(rows: Seq<(Node, usize)>, n: int) -> bool {
    forall|k: int| 0 <= k < rows.len() ==> 1 <= (#[trigger] rows[k]).0 <= n
}

/// The table of the coordinates has a row for each node.
pub proof fn lemma_coords_by_node_len(rows: Seq<Coord>, n: int)
    requires
        0 <= n,
    ensures
        coords_by_node(rows, n).len() == n,
    decreases rows.len(),
{
    if rows.len() > 0 {
        lemma_coords_by_node_len(rows.drop_last(), n);
    }
}

/// The table of the demands has a row for each node.
pub proof fn lemma_demands_by_node_len(rows: Seq<(Node, usize)>, n: int)
    requires
        0 <= n,
    ensures
        demands_by_node(rows, n).len() == n,
    decreases rows.len(),
{
    if rows.len() > 0 {
        lemma_demands_by_node_len(rows.drop_last(), n);
    }
}

/// Where every row is in range, so is every row of the table.
pub proof fn lemma_coords_by_node_in_range(rows: Seq<Coord>, n: int)
    requires
        0 <= n,
        forall|k: int| 0 <= k < rows.len() ==> (#[trigger] rows[k]).in_range(),
    ensures
        forall|k: int| 0 <= k < n ==> (#[trigger] coords_by_node(rows, n)[k]).in_range(),
    decreases rows.len(),
{
    lemma_coords_by_node_len(rows, n);
    if rows.len() > 0 {
        let head = rows.drop_last();
        assert forall|k: int| 0 <= k < head.len() implies (#[trigger] head[k]).in_range() by {
            assert(head[k] == rows[k]);
        }
        lemma_coords_by_node_in_range(head, n);
        lemma_coords_by_node_len(head, n);
        assert(rows.last() == rows[rows.len() - 1]);
    }
}

/// The coordinates as a table with a row for each of the `dimension` nodes.
/// Without a coordinate section there is no table.
pub fn order_node_coord(node_coord: &Option<Vec<Coord>>, dimension: &usize) -> (table: Option<
    Vec<Coord>,
>)
    ensures
        match table {
            Some(t) => *node_coord matches Some(rows) && t@ == coords_by_node(
                rows@,
                *dimension as int,
            ),
            None => *node_coord is None,
        },
{
    let rows = match node_coord {
        Some(rows) => rows,
        None => {
            return None;
        },
    };
    let n = *dimension;
    let mut table: Vec<Coord> = Vec::new();
    let mut k: usize = 0;
    while k < n
        invariant
            k <= n,
            table@.len() == k,
            forall|q: int| 0 <= q < k ==> #[trigger] table@[q] == no_coord(),
        decreases n - k,
    {
        table.push(Coord::Coord2d((0, 0, 0)));
        k += 1;
    }
    proof {
        assert(rows@.take(0) =~= Seq::<Coord>::empty());
        assert(table@ =~= coords_by_node(rows@.take(0), n as int));
    }
    let mut k: usize = 0;
    while k < rows.len()
        invariant
            k <= rows.len(),
            table@.len() == n,
            table@ == coords_by_node(rows@.take(k as int), n as int),
        decreases rows.len() - k,
    {
        let row = rows[k];
        proof {
            assert(rows@.take(k + 1).drop_last() =~= rows@.take(k as int));
            assert(rows@.take(k + 1).last() == row);
        }
        let id = row.get_id();
        if 1 <= id && id <= n {
            table[id - 1] = row;
        }
        k += 1;
    }
    proof {
        assert(rows@.take(rows.len() as int) =~= rows@);
    }
    Some(table)
}

/// The demands as a table with a row for each of the `dimension` nodes.
/// Without a demand section there is no table.
pub fn order_node_demand_section(demand_vector: &Option<Vec<(Node, usize)>>, dimension: &usize) -> (table:
    Option<Vec<(Node, usize)>>)
    ensures
        match table {
            Some(t) => *demand_vector matches Some(rows) && t@ == demands_by_node(
                rows@,
                *dimension as int,
            ),
            None => *demand_vector is None,
        },
{
    let rows = match demand_vector {
        Some(rows) => rows,
        None => {
            return None;
        },
    };
    let n = *dimension;
    let mut table: Vec<(Node, usize)> = Vec::new();
    let mut k: usize = 0;
    while k < n
        invariant
            k <= n,
            table@.len() == k,
            forall|q: int| 0 <= q < k ==> #[trigger] table@[q] == (0usize, 0usize),
        decreases n - k,
    {
        table.push((0, 0));
        k += 1;
    }
    proof {
        assert(rows@.take(0) =~= Seq::<(Node, usize)>::empty());
        assert(table@ =~= demands_by_node(rows@.take(0), n as int));
    }
    let mut k: usize = 0;
    while k < rows.len()
        invariant
            k <= rows.len(),
            table@.len() == n,
            table@ == demands_by_node(rows@.take(k as int), n as int),
        decreases rows.len() - k,
    {
        let row = rows[k];
        proof {
            assert(rows@.take(k + 1).drop_last() =~= rows@.take(k as int));
            assert(rows@.take(k + 1).last() == row);
        }
        if 1 <= row.0 && row.0 <= n {
            table[row.0 - 1] = row;
        }
        k += 1;
    }
    proof {
        assert(rows@.take(rows.len() as int) =~= rows@);
    }
    Some(table)
}

/// The full matrix of a weight section: the weights of the rows, one after
/// the other, expanded by the layout. There is none without a section, where
/// the weights are given by a function, and where the section does not hold
/// as many weights as the layout asks for.
pub open spec fn edge_weight_matrix(
    section: Option<Seq<Seq<usize>>>,
    format: EDGE_WEIGHT_FORMAT,
    dimension: int,
) -> Option<Seq<Seq<usize>>> {
    match section {
        None => None,
        Some(rows) => if format != EDGE_WEIGHT_FORMAT::FUNCTION && joined(rows).len()
            == stream_len(format, dimension) {
            Some(expand(joined(rows), format, dimension))
        } else {
            None
        },
    }
}

/// A matrix, or nothing, with its rows as sequences.
pub open spec fn matrix_option_view(m: Option<Vec<Vec<usize>>>) -> Option<Seq<Seq<usize>>> {
    match m {
        Some(rows) => Some(matrix_view(&rows)),
        None => None,
    }
}

/// The full matrix of a weight section.
pub fn compute_edge_weight_matrix(
    edge_weight_section: Option<Vec<Vec<usize>>>,
    edge_weight_format: EDGE_WEIGHT_FORMAT,
    dimension: usize,
) -> (matrix: Option<Vec<Vec<usize>>>)
    ensures
        matrix_option_view(matrix) == edge_weight_matrix(
            matrix_option_view(edge_weight_section),
            edge_weight_format,
            dimension as int,
        ),
{
    match edge_weight_section {
        None => None,
        Some(rows) => {
            let stream = flatten_rows(&rows);
            let runs = split_into_runs(&stream, edge_weight_format, dimension);
            if runs.is_none() {
                return None;
            }
            from_hmatrix_to_fmatrix(&runs, dimension, edge_weight_format)
        },
    }
}

} // verus!
