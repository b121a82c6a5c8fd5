//! What holds of every instance that is read from a text.

use vstd::prelude::*;
use crate::model::joined::joined;
use crate::model::layout::{is_square, is_symmetric, lemma_full_matrix_shape, runs_of};
use vstd::string::StringSliceAdditionalSpecFns;
use crate::tsplib_parser::custom_types::MAX_UNITS;
use crate::tsplib_parser::decoders::{coord_rule, decoded, demand_rule, list_rule};
use crate::tsplib_parser::header::{empty_header, header_from, HeaderModel};
use crate::tsplib_parser::keyword_values::{EDGE_WEIGHT_FORMAT, EDGE_WEIGHT_TYPE, NODE_COORD_TYPE};
use crate::tsplib_parser::keywords::{SectionKind, END_OF_FILE, SECTION_COUNT};
use crate::tsplib_parser::number::{is_number_at, number_end, number_units, Number};
use crate::tsplib_parser::parser::{
    data_of, first_section_at, no_sections, parsed, sections_from, specification_at,
    specification_of, SectionsModel,
};
use crate::tsplib_parser::parser_functions::{
    lemma_coords_by_node_in_range, lemma_coords_by_node_len, lemma_demands_by_node_len,
};
use crate::tsplib_parser::problem_instance::{InstanceModel, SpecificationModel};
use crate::tsplib_parser::scan::{has_word_at, run_end, ByteClass};
use crate::tsplib_parser::sections::{
    behind_line_break, behind_section_name, ends_rows, extended, row_at, row_rest, rows_from,
    section_at, with_row,
};

verus! {

/// Each number of the row is within `MAX_UNITS` of zero.
pub open spec fn row_in_range(row: Seq<Number>) -> bool {
    forall|k: int| 0 <= k < row.len() ==> -MAX_UNITS <= #[trigger] row[k] <= MAX_UNITS
}

/// Each number of each row is within `MAX_UNITS` of zero.
pub open spec fn rows_in_range(rows: Seq<Seq<Number>>) -> bool {
    forall|r: int| 0 <= r < rows.len() ==> row_in_range(#[trigger] rows[r])
}

/// The header and the data of the instance fit each other: the dimension
/// and the capacity are above zero, the tables of the coordinates and of the
/// demands have a row for each node, each coordinate is in range, and the
/// matrix of the weights is square, of the size of the dimension, and
/// symmetric unless it was given in full.
pub open spec fn is_consistent(instance: InstanceModel) -> bool {
    let n = instance.specification.dimension as int;
    &&& n >= 1
    &&& instance.specification.capacity >= 1
    &&& instance.data.node_coord_section matches Some(coords) ==> coords.len() == n && forall|
        k: int,
    | 0 <= k < n ==> (#[trigger] coords[k]).in_range()
    &&& instance.data.demand_section matches Some(demands) ==> demands.len() == n
    &&& instance.data.edge_weight_section matches Some(m) ==> {
        &&& is_square(m, n)
        &&& instance.specification.edge_weight_type == EDGE_WEIGHT_TYPE::EXPLICIT
        &&& instance.specification.edge_weight_format matches Some(format)
        &&& format != EDGE_WEIGHT_FORMAT::FULL_MATRIX ==> is_symmetric(m)
    }
}

/// A row whose first numbers are in range stays in range to its end.
pub proof fn lemma_row_rest_in_range(s: Seq<u8>, pos: int, row: Option<Seq<Number>>)
    requires
        row matches Some(r) ==> row_in_range(r),
    ensures
        row_rest(s, pos, row).0 matches Some(r) ==> row_in_range(r),
    decreases s.len() - pos,
{
    let b = run_end(s, pos, ByteClass::Blank);
    if 0 <= pos < b && is_number_at(s, b) && b < number_end(s, b) <= s.len() {
        let next = extended(row, number_units(s, b));
        if let Some(r) = next {
            let before = row->Some_0;
            assert forall|k: int| 0 <= k < r.len() implies -MAX_UNITS <= #[trigger] r[k]
                <= MAX_UNITS by {
                if k < before.len() {
                    assert(r[k] == before[k]);
                }
            }
        }
        lemma_row_rest_in_range(s, number_end(s, b), next);
    }
}

/// Rows that are in range stay in range to the end of their section.
pub proof fn lemma_rows_from_in_range(s: Seq<u8>, pos: int, rows: Seq<Seq<Number>>)
    requires
        rows_in_range(rows),
    ensures
        rows_in_range(rows_from(s, pos, rows).0),
    decreases s.len() - pos,
{
    let p = run_end(s, pos, ByteClass::Space);
    if 0 <= pos && is_number_at(s, p) && pos < row_at(s, p).1 <= s.len() {
        if !ends_rows(row_at(s, p).0) {
            let first = extended(Some(Seq::<Number>::empty()), number_units(s, p));
            if let Some(r) = first {
                assert(r.len() == 1);
                assert(row_in_range(r));
            }
            lemma_row_rest_in_range(s, number_end(s, p), first);
            let next = with_row(rows, row_at(s, p).0);
            assert forall|r: int| 0 <= r < next.len() implies row_in_range(#[trigger] next[r]) by {
                if r < rows.len() {
                    assert(next[r] == rows[r]);
                }
            }
            lemma_rows_from_in_range(s, row_at(s, p).1, next);
        }
    }
}

/// The rows of each section that was found are in range.
pub open spec fn sections_in_range(found: SectionsModel) -> bool {
    forall|k: int|
        0 <= k < found.len() ==> ((#[trigger] found[k]) matches Some(rows) ==> rows_in_range(rows))
}

/// The first section that is found has rows in range.
pub proof fn lemma_first_section_in_range(s: Seq<u8>, pos: int, k: int)
    ensures
        first_section_at(s, pos, k) matches Some((_, rows, _)) ==> rows_in_range(rows),
    decreases SECTION_COUNT - k,
{
    if 0 <= k < SECTION_COUNT {
        let name = SectionKind::at(k).text();
        match section_at(s, pos, name) {
            Some((rows, end)) => {
                let q = behind_section_name(s, pos, name)->Some_0;
                let body = behind_line_break(s, q)->Some_0;
                lemma_rows_from_in_range(s, body, Seq::empty());
            },
            None => {
                lemma_first_section_in_range(s, pos, k + 1);
            },
        }
    }
}

/// The sections of a text have rows in range.
pub proof fn lemma_sections_in_range(s: Seq<u8>, pos: int, found: SectionsModel)
    requires
        found.len() == SECTION_COUNT,
        sections_in_range(found),
    ensures
        sections_from(s, pos, found) matches Ok(all) ==> all.len() == SECTION_COUNT
            && sections_in_range(all),
    decreases s.len() - pos,
{
    let p = run_end(s, pos, ByteClass::Space);
    if !(p >= s.len() || has_word_at(s, p, END_OF_FILE.spec_bytes())) {
        lemma_first_section_in_range(s, pos, 0);
        match first_section_at(s, pos, 0) {
            None => {},
            Some((k, rows, end)) => {
                lemma_first_section_index(s, pos, 0);
                if (0 <= pos < end <= s.len()) && found[k] is None {
                    let next = found.update(k, Some(rows));
                    assert forall|q: int| 0 <= q < next.len() implies ((#[trigger] next[q]) matches Some(
                        held,
                    ) ==> rows_in_range(held)) by {
                        if q != k {
                            assert(next[q] == found[q]);
                        }
                    }
                    lemma_sections_in_range(s, end, next);
                }
            },
        }
    }
}

/// The first section that is found is one of the sections.
pub proof fn lemma_first_section_index(s: Seq<u8>, pos: int, k: int)
    requires
        0 <= k,
    ensures
        first_section_at(s, pos, k) matches Some((found, _, _)) ==> k <= found < SECTION_COUNT,
    decreases SECTION_COUNT - k,
{
    if k < SECTION_COUNT {
        if section_at(s, pos, SectionKind::at(k).text()) is None {
            lemma_first_section_index(s, pos, k + 1);
        }
    }
}

/// The nodes that rows in range hold have coordinates in range.
pub proof fn lemma_decoded_coords_in_range(rows: Seq<Seq<Number>>, in_space: bool)
    requires
        rows_in_range(rows),
    ensures
        forall|k: int|
            0 <= k < decoded(rows, coord_rule(in_space)).len() ==> (#[trigger] decoded(
                rows,
                coord_rule(in_space),
            )[k]).in_range(),
    decreases rows.len(),
{
    if rows.len() > 0 {
        let head = rows.drop_last();
        assert forall|r: int| 0 <= r < head.len() implies row_in_range(#[trigger] head[r]) by {
            assert(head[r] == rows[r]);
        }
        lemma_decoded_coords_in_range(head, in_space);
        let rule = coord_rule(in_space);
        let last = rows.last();
        assert(row_in_range(rows[rows.len() - 1]));
        match rule(last) {
            Some(node) => {
                let all = decoded(rows, rule);
                let before = decoded(head, rule);
                assert(all == before.push(node));
                if in_space {
                    assert(last.len() == 4);
                } else {
                    assert(last.len() == 3);
                }
                assert(-MAX_UNITS <= last[1] <= MAX_UNITS);
                assert(-MAX_UNITS <= last[2] <= MAX_UNITS);
                assert(node.in_range());
                assert forall|k: int| 0 <= k < all.len() implies (#[trigger] all[k]).in_range() by {
                    if k < before.len() {
                        assert(all[k] == before[k]);
                    }
                }
            },
            None => {},
        }
    }
}

/// The data that is made of sections in range, under a header with a
/// dimension and a capacity above zero, fits the header.
pub proof fn lemma_data_is_consistent(found: SectionsModel, sp: SpecificationModel)
    requires
        found.len() == SECTION_COUNT,
        sections_in_range(found),
        sp.dimension >= 1,
        sp.capacity >= 1,
    ensures
        data_of(found, sp) matches Ok(data) ==> is_consistent(
            InstanceModel { specification: sp, data },
        ),
{
    let n = sp.dimension as int;
    if let Ok(data) = data_of(found, sp) {
        if let Some(rows) = found[SectionKind::NodeCoord.index()] {
            let in_space = sp.node_coord_type == NODE_COORD_TYPE::THREED_COORDS;
            lemma_decoded_coords_in_range(rows, in_space);
            lemma_coords_by_node_in_range(decoded(rows, coord_rule(in_space)), n);
            lemma_coords_by_node_len(decoded(rows, coord_rule(in_space)), n);
        }
        if let Some(rows) = found[SectionKind::Demand.index()] {
            lemma_demands_by_node_len(decoded(rows, demand_rule()), n);
        }
        if let Some(m) = data.edge_weight_section {
            let rows = found[SectionKind::EdgeWeight.index()]->Some_0;
            let format = sp.edge_weight_format->Some_0;
            let stream = joined(decoded(rows, list_rule()));
            lemma_full_matrix_shape(runs_of(stream, format, n), format, n);
        }
    }
}

/// The header that is made of the lines of a header has a dimension and a
/// capacity above zero.
pub proof fn lemma_specification_counts(h: HeaderModel)
    ensures
        specification_of(h) matches Ok(sp) ==> sp.dimension >= 1 && sp.capacity >= 1,
{
}

/// An instance that is read from a text is consistent.
pub proof fn lemma_parsed_is_consistent(s: Seq<u8>)
    ensures
        parsed(s) matches Ok(instance) ==> is_consistent(instance),
{
    if let Ok((sp, end)) = specification_at(s) {
        let h = header_from(s, 0, empty_header())->Ok_0.0;
        lemma_specification_counts(h);
        lemma_sections_in_range(s, end, no_sections());
        if let Ok(found) = sections_from(s, end, no_sections()) {
            lemma_data_is_consistent(found, sp);
        }
    }
}

} // verus!
