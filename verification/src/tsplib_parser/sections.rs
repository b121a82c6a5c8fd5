//! The rows of a data section. A row is a line of numbers with blanks
//! between them; the rows of a section follow one another, with white space
//! between them, up to a row that holds `-1` alone or to something that is no
//! number.

use vstd::prelude::*;
use vstd::string::StringSliceAdditionalSpecFns;
use crate::tsplib_parser::number::{is_number_at, number_end, number_units, read_number, Number};
use crate::tsplib_parser::scan::{has_word_at, run_end, skip_run, word_at, ByteClass};

verus! {

/// The number that ends a section where it is alone on its row: `-1`.
pub const END_OF_ROWS: Number = -1_000_000;

/// A row with one number more. A row with a number out of range is no row.
pub open spec fn extended(row: Option<Seq<Number>>, x: Option<Number>) -> Option<Seq<Number>> {
    match (row, x) {
        (Some(r), Some(v)) => Some(r.push(v)),
        _ => None,
    }
}

/// The rest of a row, from the place behind one of its numbers: the row
/// goes on while blanks and a number follow. The result is the row and the
/// place behind its last number.
pub open spec fn row_rest(s: Seq<u8>, pos: int, row: Option<Seq<Number>>) -> (Option<Seq<Number>>, int)
    decreases s.len() - pos,
{
    let b = run_end(s, pos, ByteClass::Blank);
    if 0 <= pos < b && is_number_at(s, b) && b < number_end(s, b) <= s.len() {
        row_rest(s, number_end(s, b), extended(row, number_units(s, b)))
    } else {
        (row, pos)
    }
}

/// The row that begins with the number at `pos`, and the place behind its
/// last number.
pub open spec fn row_at(s: Seq<u8>, pos: int) -> (Option<Seq<Number>>, int) {
    row_rest(s, number_end(s, pos), extended(Some(Seq::empty()), number_units(s, pos)))
}

/// The row holds `-1` alone.
pub open spec fn ends_rows(row: Option<Seq<Number>>) -> bool {
    row == Some(seq![END_OF_ROWS])
}

/// The rows with one more, where it is a row.
pub open spec fn with_row(rows: Seq<Seq<Number>>, row: Option<Seq<Number>>) -> Seq<Seq<Number>> {
    match row {
        Some(r) => rows.push(r),
        None => rows,
    }
}

/// The rows that follow `pos`, put behind `rows`, and the place behind the
/// last of them. A row with a number out of range is left out, and a row that
/// holds `-1` alone ends the rows and is left out too.
pub open spec fn rows_from(s: Seq<u8>, pos: int, rows: Seq<Seq<Number>>) -> (Seq<Seq<Number>>, int)
    decreases s.len() - pos,
{
    let p = run_end(s, pos, ByteClass::Space);
    if 0 <= pos && is_number_at(s, p) && pos < row_at(s, p).1 <= s.len() {
        if ends_rows(row_at(s, p).0) {
            (rows, row_at(s, p).1)
        } else {
            rows_from(s, row_at(s, p).1, with_row(rows, row_at(s, p).0))
        }
    } else {
        (rows, pos)
    }
}

/// The place behind the line break at `pos`: a line feed, or a carriage
/// return and a line feed.
pub open spec fn behind_line_break(s: Seq<u8>, pos: int) -> Option<int> {
    if 0 <= pos < s.len() && s[pos] == 10 {
        Some(pos + 1)
    } else if 0 <= pos && pos + 1 < s.len() && s[pos] == 13 && s[pos + 1] == 10 {
        Some(pos + 2)
    } else {
        None
    }
}

/// The place behind the name of a section and the blanks that follow it,
/// where the name stands behind the white space at `pos`.
pub open spec fn behind_section_name(s: Seq<u8>, pos: int, name: Seq<u8>) -> Option<int> {
    let p = run_end(s, pos, ByteClass::Space);
    if has_word_at(s, p, name) {
        Some(run_end(s, p + name.len(), ByteClass::Blank))
    } else {
        None
    }
}

/// The rows of the section of the given name that begins behind the white
/// space at `pos`, and the place behind them. The name must have its line to
/// itself.
pub open spec fn section_at(s: Seq<u8>, pos: int, name: Seq<u8>) -> Option<(Seq<Seq<Number>>, int)> {
    match behind_section_name(s, pos, name) {
        None => None,
        Some(q) => match behind_line_break(s, q) {
            None => None,
            Some(body) => Some(rows_from(s, body, Seq::empty())),
        },
    }
}

/// A row as a sequence.
pub open spec fn row_view(row: Option<Vec<Number>>) -> Option<Seq<Number>> {
    match row {
        Some(r) => Some(r@),
        None => None,
    }
}

/// The rows as sequences.
pub open spec fn rows_view(rows: &Vec<Vec<Number>>) -> Seq<Seq<Number>> {
    Seq::new(rows@.len(), |k: int| rows@[k]@)
}

/// Reads the row that begins with the number at `pos`.
pub fn read_row(bytes: &[u8], pos: usize) -> (read: (Option<Vec<Number>>, usize))
    requires
        pos <= bytes@.len(),
        is_number_at(bytes@, pos as int),
    ensures
        (row_view(read.0), read.1 as int) == row_at(bytes@, pos as int),
        pos < read.1 <= bytes@.len(),
{
    let first = read_number(bytes, pos).unwrap();
    let mut row: Option<Vec<Number>> = match first.units {
        Some(v) => {
            let mut r: Vec<Number> = Vec::new();
            r.push(v);
            assert(r@ =~= Seq::<Number>::empty().push(v));
            Some(r)
        },
        None => None,
    };
    let mut end: usize = first.end;
    loop
        invariant
            pos < end <= bytes@.len(),
            row_rest(bytes@, end as int, row_view(row)) == row_at(bytes@, pos as int),
        ensures
            pos < end <= bytes@.len(),
            (row_view(row), end as int) == row_at(bytes@, pos as int),
        decreases bytes@.len() - end,
    {
        let b = skip_run(bytes, end, ByteClass::Blank);
        if b == end {
            break;
        }
        match read_number(bytes, b) {
            None => {
                break;
            },
            Some(next) => {
                let ghost before = row_view(row);
                row = match (row, next.units) {
                    (Some(mut r), Some(v)) => {
                        r.push(v);
                        Some(r)
                    },
                    _ => None,
                };
                assert(row_view(row) == extended(before, next.units));
                end = next.end;
            },
        }
    }
    (row, end)
}

/// Whether the row holds `-1` alone.
pub fn row_ends_rows(row: &Option<Vec<Number>>) -> (ends: bool)
    ensures
        ends == ends_rows(row_view(*row)),
{
    match row {
        Some(r) => {
            if r.len() == 1 && r[0] == END_OF_ROWS {
                assert(r@ =~= seq![END_OF_ROWS]);
                true
            } else {
                assert(r@.len() == 1 ==> r@[0] != seq![END_OF_ROWS][0]);
                false
            }
        },
        None => false,
    }
}

/// Reads the rows that follow `pos`.
pub fn read_rows(bytes: &[u8], pos: usize) -> (read: (Vec<Vec<Number>>, usize))
    requires
        pos <= bytes@.len(),
    ensures
        (rows_view(&read.0), read.1 as int) == rows_from(bytes@, pos as int, Seq::empty()),
        pos <= read.1 <= bytes@.len(),
{
    let mut rows: Vec<Vec<Number>> = Vec::new();
    let mut end: usize = pos;
    assert(rows_view(&rows) =~= Seq::<Seq<Number>>::empty());
    loop
        invariant_except_break
            rows_from(bytes@, end as int, rows_view(&rows)) == rows_from(
                bytes@,
                pos as int,
                Seq::empty(),
            ),
        invariant
            pos <= end <= bytes@.len(),
        ensures
            pos <= end <= bytes@.len(),
            (rows_view(&rows), end as int) == rows_from(bytes@, pos as int, Seq::empty()),
        decreases bytes@.len() - end,
    {
        let p = skip_run(bytes, end, ByteClass::Space);
        if read_number(bytes, p).is_none() {
            break;
        }
        let (row, after) = read_row(bytes, p);
        if row_ends_rows(&row) {
            end = after;
            break;
        }
        let ghost before = rows_view(&rows);
        match row {
            Some(r) => {
                rows.push(r);
                assert(rows_view(&rows) =~= before.push(r@));
            },
            None => {},
        }
        end = after;
    }
    (rows, end)
}

/// The place behind the name of a section and the blanks that follow it,
/// where the name stands behind the white space at `pos`.
pub fn parse_section_name(text: &str, pos: usize, key: &str) -> (behind: Option<usize>)
    requires
        pos <= text.spec_bytes().len(),
    ensures
        match behind {
            Some(q) => behind_section_name(text.spec_bytes(), pos as int, key.spec_bytes()) == Some(
                q as int,
            ) && pos <= q <= text.spec_bytes().len(),
            None => behind_section_name(text.spec_bytes(), pos as int, key.spec_bytes()) is None,
        },
{
    let bytes = text.as_bytes();
    let n = bytes.len();
    let p = skip_run(bytes, pos, ByteClass::Space);
    let name = key.as_bytes();
    if word_at(bytes, p, name) {
        assert(p + name@.len() <= n);
        Some(skip_run(bytes, p + name.len(), ByteClass::Blank))
    } else {
        None
    }
}

/// Reads the section of the given name that begins behind the white space
/// at `pos`: its rows, and the place behind them. There is none where the
/// name does not stand there on a line of its own.
pub fn parse_instance_section(text: &str, pos: usize, section_name: &str) -> (read: Option<
    (Vec<Vec<Number>>, usize),
>)
    requires
        pos <= text.spec_bytes().len(),
    ensures
        match read {
            Some((rows, end)) => section_at(
                text.spec_bytes(),
                pos as int,
                section_name.spec_bytes(),
            ) == Some((rows_view(&rows), end as int)) && pos < end <= text.spec_bytes().len(),
            None => section_at(text.spec_bytes(), pos as int, section_name.spec_bytes()) is None,
        },
{
    let q = match parse_section_name(text, pos, section_name) {
        Some(q) => q,
        None => {
            return None;
        },
    };
    let bytes = text.as_bytes();
    let n = bytes.len();
    let body = if q < n && bytes[q] == 10 {
        q + 1
    } else if q < n && n - q > 1 && bytes[q] == 13 && bytes[q + 1] == 10 {
        q + 2
    } else {
        return None;
    };
    let (rows, end) = read_rows(bytes, body);
    Some((rows, end))
}

} // verus!
