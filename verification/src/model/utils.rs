//! Turning weight streams and half matrices into full matrices and back.

use vstd::prelude::*;
use crate::model::joined::joined;
use crate::model::layout::{
    are_half_matrix_rows, diagonal_gap, full_cell, full_matrix, half_cell, half_matrix,
    has_diagonal, is_half_matrix, is_row_major, is_short_half_matrix, is_square,
    lemma_empty_run_put_in, lemma_run_start_monotone, lemma_run_start_step, matrix_view, row_shift,
    run_len, run_start, runs_of, runs_of_rows, runs_shrink, stream_len,
};
use crate::model::distance::Rounding;
use crate::model::source::{savings_list, DistanceSource, SourceModel};
use crate::savings_algorithm::ordering::Saving;
use crate::tsplib_parser::custom_types::Coord;
use crate::tsplib_parser::keyword_values::EDGE_WEIGHT_FORMAT;

verus! {

/// Whether the layout stores the diagonal.
pub fn format_has_diagonal(f: EDGE_WEIGHT_FORMAT) -> (b: bool)
    ensures
        b == has_diagonal(f),
{
    match f {
        EDGE_WEIGHT_FORMAT::UPPER_DIAG_ROW => true,
        EDGE_WEIGHT_FORMAT::LOWER_DIAG_ROW => true,
        EDGE_WEIGHT_FORMAT::UPPER_DIAG_COL => true,
        EDGE_WEIGHT_FORMAT::LOWER_DIAG_COL => true,
        _ => false,
    }
}

/// Whether the stream goes row by row.
pub fn format_is_row_major(f: EDGE_WEIGHT_FORMAT) -> (b: bool)
    ensures
        b == is_row_major(f),
{
    match f {
        EDGE_WEIGHT_FORMAT::FULL_MATRIX => true,
        EDGE_WEIGHT_FORMAT::UPPER_ROW => true,
        EDGE_WEIGHT_FORMAT::LOWER_ROW => true,
        EDGE_WEIGHT_FORMAT::UPPER_DIAG_ROW => true,
        EDGE_WEIGHT_FORMAT::LOWER_DIAG_ROW => true,
        _ => false,
    }
}

/// Whether the runs of the layout shrink.
pub fn format_runs_shrink(f: EDGE_WEIGHT_FORMAT) -> (b: bool)
    ensures
        b == runs_shrink(f),
{
    match f {
        EDGE_WEIGHT_FORMAT::UPPER_ROW => true,
        EDGE_WEIGHT_FORMAT::UPPER_DIAG_ROW => true,
        EDGE_WEIGHT_FORMAT::LOWER_COL => true,
        EDGE_WEIGHT_FORMAT::LOWER_DIAG_COL => true,
        _ => false,
    }
}

/// The number of weights in run `k` of a matrix of size `n`.
pub fn run_length(f: EDGE_WEIGHT_FORMAT, n: usize, k: usize) -> (len: usize)
    requires
        k < n,
    ensures
        len == run_len(f, n as int, k as int),
{
    let gap: usize = if format_has_diagonal(f) { 0 } else { 1 };
    match f {
        EDGE_WEIGHT_FORMAT::FUNCTION => 0,
        EDGE_WEIGHT_FORMAT::FULL_MATRIX => n,
        _ => if format_runs_shrink(f) {
            n - k - gap
        } else {
            k + 1 - gap
        },
    }
}

/// The rows of `rows` one after the other.
pub fn flatten_rows(rows: &Vec<Vec<usize>>) -> (stream: Vec<usize>)
    ensures
        stream@ == joined(matrix_view(rows)),
{
    let mut stream: Vec<usize> = Vec::new();
    let mut i: usize = 0;
    assert(matrix_view(rows).take(0).len() == 0);
    while i < rows.len()
        invariant
            i <= rows.len(),
            stream@ == joined(matrix_view(rows).take(i as int)),
        decreases rows.len() - i,
    {
        let row = &rows[i];
        let ghost before = stream@;
        let mut j: usize = 0;
        while j < row.len()
            invariant
                j <= row.len(),
                stream@ == before + row@.take(j as int),
            decreases row.len() - j,
        {
            stream.push(row[j]);
            proof {
                assert(row@.take(j as int).push(row@[j as int]) =~= row@.take(j + 1));
                assert(stream@ =~= before + row@.take(j + 1));
            }
            j += 1;
        }
        proof {
            let all = matrix_view(rows);
            assert(row@.take(row.len() as int) =~= row@);
            assert(all.take(i + 1).drop_last() =~= all.take(i as int));
            assert(all.take(i + 1).last() == row@);
        }
        i += 1;
    }
    proof {
        assert(matrix_view(rows).take(rows.len() as int) =~= matrix_view(rows));
    }
    stream
}

/// Cuts a stream of weights into the runs of the layout. The stream must hold
/// exactly the weights of a matrix of size `n`; of any other stream, and
/// where the weights are given by a function, there are no runs.
pub fn split_into_runs(stream: &Vec<usize>, f: EDGE_WEIGHT_FORMAT, n: usize) -> (runs: Option<
    Vec<Vec<usize>>,
>)
    ensures
        runs is Some <==> f != EDGE_WEIGHT_FORMAT::FUNCTION && stream@.len() == stream_len(
            f,
            n as int,
        ),
        runs matches Some(hm) ==> matrix_view(&hm) == runs_of(stream@, f, n as int)
            && is_half_matrix(matrix_view(&hm), f, n as int),
{
    if let EDGE_WEIGHT_FORMAT::FUNCTION = f {
        return None;
    }
    let mut hm: Vec<Vec<usize>> = Vec::new();
    let mut pos: usize = 0;
    let mut k: usize = 0;
    while k < n
        invariant
            k <= n,
            pos == run_start(f, n as int, k as int),
            pos <= stream@.len(),
            hm@.len() == k,
            forall|a: int|
                0 <= a < k ==> (#[trigger] hm@[a])@ == stream@.subrange(
                    run_start(f, n as int, a),
                    run_start(f, n as int, a + 1),
                ),
        decreases n - k,
    {
        let len = run_length(f, n, k);
        proof {
            lemma_run_start_step(f, n as int, k as int);
            lemma_run_start_monotone(f, n as int, k + 1, n as int);
        }
        if len > stream.len() - pos {
            return None;
        }
        let mut run: Vec<usize> = Vec::new();
        let mut p: usize = 0;
        while p < len
            invariant
                p <= len,
                pos + len <= stream.len(),
                run@ == stream@.subrange(pos as int, pos + p),
            decreases len - p,
        {
            run.push(stream[pos + p]);
            proof {
                assert(run@ =~= stream@.subrange(pos as int, pos + p + 1));
            }
            p += 1;
        }
        hm.push(run);
        pos += len;
        k += 1;
    }
    if pos != stream.len() {
        return None;
    }
    proof {
        let view = matrix_view(&hm);
        let want = runs_of(stream@, f, n as int);
        assert(view.len() == want.len());
        assert forall|a: int| 0 <= a < n implies #[trigger] view[a] == want[a] by {
            assert(view[a] == hm@[a]@);
        }
        assert(view =~= want);
        assert forall|a: int| 0 <= a < n implies (#[trigger] view[a]).len() == run_len(
            f,
            n as int,
            a,
        ) by {
            lemma_run_start_monotone(f, n as int, a, a + 1);
            lemma_run_start_monotone(f, n as int, a + 1, n as int);
            lemma_run_start_step(f, n as int, a);
        }
    }
    Some(hm)
}

/// Whether `hm` has the shape of a half matrix of the layout.
pub fn has_half_matrix_shape(hm: &Vec<Vec<usize>>, f: EDGE_WEIGHT_FORMAT, n: usize) -> (b: bool)
    ensures
        b == is_half_matrix(matrix_view(hm), f, n as int),
{
    if hm.len() != n {
        return false;
    }
    let mut k: usize = 0;
    while k < n
        invariant
            k <= n,
            hm@.len() == n,
            forall|a: int|
                0 <= a < k ==> (#[trigger] matrix_view(hm)[a]).len() == run_len(f, n as int, a),
        decreases n - k,
    {
        if hm[k].len() != run_length(f, n, k) {
            assert(matrix_view(hm)[k as int].len() != run_len(f, n as int, k as int));
            return false;
        }
        k += 1;
    }
    true
}

/// Whether `m` is a square matrix of size `n`.
pub fn has_square_shape(m: &Vec<Vec<usize>>, n: usize) -> (b: bool)
    ensures
        b == is_square(matrix_view(m), n as int),
{
    if m.len() != n {
        return false;
    }
    let mut i: usize = 0;
    while i < n
        invariant
            i <= n,
            m@.len() == n,
            forall|a: int| 0 <= a < i ==> (#[trigger] matrix_view(m)[a]).len() == n,
        decreases n - i,
    {
        if m[i].len() != n {
            assert(matrix_view(m)[i as int].len() != n);
            return false;
        }
        i += 1;
    }
    true
}

/// Whether `hm` has the shape of a half matrix of the layout whose empty run
/// is left out.
pub fn has_short_half_matrix_shape(hm: &Vec<Vec<usize>>, f: EDGE_WEIGHT_FORMAT, n: usize) -> (b:
    bool)
    ensures
        b == is_short_half_matrix(matrix_view(hm), f, n as int),
{
    if n == 0 || hm.len() != n - 1 || format_has_diagonal(f) {
        return false;
    }
    match f {
        EDGE_WEIGHT_FORMAT::FUNCTION => {
            return false;
        },
        EDGE_WEIGHT_FORMAT::FULL_MATRIX => {
            return false;
        },
        _ => {},
    }
    let shift: usize = if format_runs_shrink(f) { 0 } else { 1 };
    let mut k: usize = 0;
    while k < n - 1
        invariant
            k <= n - 1,
            hm@.len() == n - 1,
            shift == row_shift(f),
            forall|a: int|
                0 <= a < k ==> (#[trigger] matrix_view(hm)[a]).len() == run_len(
                    f,
                    n as int,
                    a + row_shift(f),
                ),
        decreases n - 1 - k,
    {
        if hm[k].len() != run_length(f, n, k + shift) {
            assert(matrix_view(hm)[k as int].len() != run_len(f, n as int, k + row_shift(f)));
            return false;
        }
        k += 1;
    }
    true
}

/// Expands the rows of a half matrix into the full matrix of size
/// `node_number`: a triangle is mirrored at the diagonal, a diagonal that is
/// not stored is zero, and the full layout is copied. The rows of a triangle
/// without its diagonal may hold the empty run or leave it out. There is no
/// matrix where no rows are given, where they have not the shape of the
/// layout, and where the weights are given by a function.
pub fn from_hmatrix_to_fmatrix(
    edge_weight: &Option<Vec<Vec<usize>>>,
    node_number: usize,
    e_weight_format: EDGE_WEIGHT_FORMAT,
) -> (result: Option<Vec<Vec<usize>>>)
    ensures
        result is Some <==> (edge_weight matches Some(hm) && e_weight_format
            != EDGE_WEIGHT_FORMAT::FUNCTION && are_half_matrix_rows(
            matrix_view(&hm),
            e_weight_format,
            node_number as int,
        )),
        result matches Some(m) ==> (edge_weight matches Some(hm) && matrix_view(&m) == full_matrix(
            runs_of_rows(matrix_view(&hm), e_weight_format, node_number as int),
            e_weight_format,
            node_number as int,
        )),
{
    let f = e_weight_format;
    let n = node_number;
    let hm = match edge_weight {
        Some(hm) => hm,
        None => {
            return None;
        },
    };
    if let EDGE_WEIGHT_FORMAT::FUNCTION = f {
        return None;
    }
    let whole = has_half_matrix_shape(hm, f, n);
    if !whole && !has_short_half_matrix_shape(hm, f, n) {
        return None;
    }
    let gap: usize = if format_has_diagonal(f) { 0 } else { 1 };
    let shrink = format_runs_shrink(f);
    let full = if let EDGE_WEIGHT_FORMAT::FULL_MATRIX = f { true } else { false };
    // Row `k` is run `k + shift`.
    let shift: usize = if whole || shrink { 0 } else { 1 };
    let ghost rows = matrix_view(hm);
    let ghost h = runs_of_rows(rows, f, n as int);
    proof {
        if !whole {
            lemma_empty_run_put_in(rows, f, n as int);
        }
        assert forall|k: int| 0 <= k < rows.len() implies h[k + shift] == #[trigger] rows[k] by {}
    }
    let mut m: Vec<Vec<usize>> = Vec::new();
    let mut i: usize = 0;
    while i < n
        invariant
            i <= n,
            rows == matrix_view(hm),
            is_half_matrix(h, f, n as int),
            forall|k: int| 0 <= k < rows.len() ==> h[k + shift] == #[trigger] rows[k],
            whole ==> rows.len() == n,
            !whole ==> rows.len() == n - 1 && gap == 1 && !full,
            shift == (if whole || shrink { 0usize } else { 1usize }),
            f != EDGE_WEIGHT_FORMAT::FUNCTION,
            gap == diagonal_gap(f),
            shrink == runs_shrink(f),
            full == (f == EDGE_WEIGHT_FORMAT::FULL_MATRIX),
            m@.len() == i,
            forall|a: int|
                0 <= a < i ==> (#[trigger] m@[a])@ == Seq::new(
                    n as nat,
                    |j: int| full_cell(h, f, a, j),
                ),
        decreases n - i,
    {
        let mut row: Vec<usize> = Vec::new();
        let mut j: usize = 0;
        while j < n
            invariant
                j <= n,
                i < n,
                rows == matrix_view(hm),
                is_half_matrix(h, f, n as int),
                forall|k: int| 0 <= k < rows.len() ==> h[k + shift] == #[trigger] rows[k],
                whole ==> rows.len() == n,
                !whole ==> rows.len() == n - 1 && gap == 1 && !full,
                shift == (if whole || shrink { 0usize } else { 1usize }),
                f != EDGE_WEIGHT_FORMAT::FUNCTION,
                gap == diagonal_gap(f),
                shrink == runs_shrink(f),
                full == (f == EDGE_WEIGHT_FORMAT::FULL_MATRIX),
                row@.len() == j,
                forall|b: int| 0 <= b < j ==> #[trigger] row@[b] == full_cell(h, f, i as int, b),
            decreases n - j,
        {
            let lo = if i <= j { i } else { j };
            let hi = if i <= j { j } else { i };
            proof {
                assert(h[i as int].len() == run_len(f, n as int, i as int));
                assert(h[lo as int].len() == run_len(f, n as int, lo as int));
                assert(h[hi as int].len() == run_len(f, n as int, hi as int));
            }
            let cell = if full {
                proof {
                    assert(h[i as int] == rows[i as int]);
                    assert(rows[i as int] == hm@[i as int]@);
                }
                hm[i][j]
            } else if i == j && gap == 1 {
                0
            } else if shrink {
                proof {
                    assert(h[lo as int] == rows[lo as int]);
                    assert(rows[lo as int] == hm@[lo as int]@);
                }
                hm[lo][hi - lo - gap]
            } else {
                proof {
                    assert(h[hi as int] == rows[hi - shift]);
                    assert(rows[hi - shift] == hm@[hi - shift]@);
                }
                hm[hi - shift][lo]
            };
            row.push(cell);
            j += 1;
        }
        proof {
            assert(row@ =~= Seq::new(n as nat, |j: int| full_cell(h, f, i as int, j)));
        }
        m.push(row);
        i += 1;
    }
    proof {
        let view = matrix_view(&m);
        let want = full_matrix(h, f, n as int);
        assert(view.len() == want.len());
        assert forall|a: int| 0 <= a < n implies #[trigger] view[a] == want[a] by {
            assert(view[a] == m@[a]@);
        }
        assert(view =~= want);
    }
    Some(m)
}

/// Reads the half matrix of a layout out of a full matrix of size
/// `node_number`. There is none where the matrix is not square of that size,
/// and where the weights are given by a function.
pub fn from_fmatrix_to_hmatrix(
    matrix: &Vec<Vec<usize>>,
    node_number: usize,
    e_weight_format: EDGE_WEIGHT_FORMAT,
) -> (result: Option<Vec<Vec<usize>>>)
    ensures
        result is Some <==> e_weight_format != EDGE_WEIGHT_FORMAT::FUNCTION && is_square(
            matrix_view(matrix),
            node_number as int,
        ),
        result matches Some(hm) ==> matrix_view(&hm) == half_matrix(
            matrix_view(matrix),
            e_weight_format,
            node_number as int,
        ),
{
    let f = e_weight_format;
    let n = node_number;
    if let EDGE_WEIGHT_FORMAT::FUNCTION = f {
        return None;
    }
    if !has_square_shape(matrix, n) {
        return None;
    }
    let gap: usize = if format_has_diagonal(f) { 0 } else { 1 };
    let shrink = format_runs_shrink(f);
    let by_rows = format_is_row_major(f);
    let ghost full = matrix_view(matrix);
    let mut hm: Vec<Vec<usize>> = Vec::new();
    let mut k: usize = 0;
    while k < n
        invariant
            k <= n,
            matrix@.len() == n,
            full == matrix_view(matrix),
            is_square(full, n as int),
            f != EDGE_WEIGHT_FORMAT::FUNCTION,
            gap == diagonal_gap(f),
            shrink == runs_shrink(f),
            by_rows == is_row_major(f),
            hm@.len() == k,
            forall|a: int|
                0 <= a < k ==> (#[trigger] hm@[a])@ == Seq::new(
                    run_len(f, n as int, a) as nat,
                    |p: int| half_cell(full, f, a, p),
                ),
        decreases n - k,
    {
        let len = run_length(f, n, k);
        let mut run: Vec<usize> = Vec::new();
        let mut p: usize = 0;
        while p < len
            invariant
                p <= len,
                k < n,
                len == run_len(f, n as int, k as int),
                matrix@.len() == n,
                full == matrix_view(matrix),
                is_square(full, n as int),
                f != EDGE_WEIGHT_FORMAT::FUNCTION,
                gap == diagonal_gap(f),
                shrink == runs_shrink(f),
                by_rows == is_row_major(f),
                run@.len() == p,
                forall|q: int| 0 <= q < p ==> #[trigger] run@[q] == half_cell(full, f, k as int, q),
            decreases len - p,
        {
            let minor = if shrink { k + p + gap } else { p };
            proof {
                assert(full[k as int].len() == n);
                assert(full[minor as int].len() == n);
                assert(full[k as int] == matrix@[k as int]@);
                assert(full[minor as int] == matrix@[minor as int]@);
            }
            let cell = if by_rows { matrix[k][minor] } else { matrix[minor][k] };
            run.push(cell);
            p += 1;
        }
        proof {
            assert(run@ =~= Seq::new(
                run_len(f, n as int, k as int) as nat,
                |p: int| half_cell(full, f, k as int, p),
            ));
        }
        hm.push(run);
        k += 1;
    }
    proof {
        let view = matrix_view(&hm);
        let want = half_matrix(full, f, n as int);
        assert(view.len() == want.len());
        assert forall|a: int| 0 <= a < n implies #[trigger] view[a] == want[a] by {
            assert(view[a] == hm@[a]@);
        }
        assert(view =~= want);
    }
    Some(hm)
}

/// The savings of a full matrix, or none where there is no matrix.
pub open spec fn matrix_savings(edge_weight: Option<Vec<Vec<usize>>>) -> Seq<Saving> {
    match edge_weight {
        Some(m) => savings_list(SourceModel::Matrix(matrix_view(&m))),
        None => Seq::empty(),
    }
}

/// The savings of a table of coordinates, or none where there is no table.
pub open spec fn coord_savings(node_coord: Option<Vec<Coord>>, rounding: Rounding) -> Seq<Saving> {
    match node_coord {
        Some(coords) => savings_list(SourceModel::Coordinates(coords@, rounding)),
        None => Seq::empty(),
    }
}

/// Puts the savings of all pairs of customers behind those of `savings`,
/// with the distances read from the full matrix of size `node_number`.
/// Without a matrix nothing is added.
pub fn compute_savings_explicit(
    edge_weight: &Option<Vec<Vec<usize>>>,
    node_number: usize,
    savings: &mut Vec<Saving>,
)
    requires
        edge_weight matches Some(m) ==> is_square(matrix_view(&m), node_number as int),
    ensures
        final(savings)@ == old(savings)@ + matrix_savings(*edge_weight),
{
    match edge_weight {
        Some(m) => {
            let source = DistanceSource::Matrix(m);
            source.push_savings(savings);
        },
        None => {
            assert(savings@ =~= savings@ + Seq::<Saving>::empty());
        },
    }
}

/// Puts the savings of all pairs of customers behind those of `savings`,
/// with the distances read from the full matrix of size `node_number`.
/// Without a matrix nothing is added.
pub fn compute_savings_fmatrix(
    edge_weight: &Option<Vec<Vec<usize>>>,
    node_number: usize,
    savings: &mut Vec<Saving>,
)
    requires
        edge_weight matches Some(m) ==> is_square(matrix_view(&m), node_number as int),
    ensures
        final(savings)@ == old(savings)@ + matrix_savings(*edge_weight),
{
    compute_savings_explicit(edge_weight, node_number, savings);
}

/// Puts the savings of all pairs of customers behind those of `savings`,
/// with the planar distances of the `node_number` rows of the coordinate
/// table, rounded as `rounding` says. Without a table nothing is added.
pub fn compute_savings_coord(
    node_coord: &Option<Vec<Coord>>,
    node_number: usize,
    rounding: Rounding,
    savings: &mut Vec<Saving>,
)
    requires
        node_coord matches Some(coords) ==> coords@.len() == node_number && forall|k: int|
            0 <= k < coords@.len() ==> (#[trigger] coords@[k]).in_range(),
    ensures
        final(savings)@ == old(savings)@ + coord_savings(*node_coord, rounding),
{
    match node_coord {
        Some(coords) => {
            let source = DistanceSource::Coordinates(coords, rounding);
            source.push_savings(savings);
        },
        None => {
            assert(savings@ =~= savings@ + Seq::<Saving>::empty());
        },
    }
}

} // verus!
