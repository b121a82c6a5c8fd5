//! The storage layouts of an explicit weight section.
//!
//! A layout cuts the stream of weights into `n` runs, one for each row (or,
//! for the column-wise layouts, each column) of the stored part of the
//! matrix. The runs of a triangle either grow (run `k` holds the entries
//! below index `k`) or shrink (run `k` starts at the diagonal and runs to the
//! border). The list of runs is the half matrix. Where the diagonal is not
//! stored one run is empty, and the rows of a half matrix may leave it out.

use vstd::prelude::*;
use crate::model::joined::joined;
use crate::tsplib_parser::keyword_values::EDGE_WEIGHT_FORMAT;

verus! {

/// The layout stores a triangle.
pub open spec fn is_triangular(f: EDGE_WEIGHT_FORMAT) -> bool {
    f != EDGE_WEIGHT_FORMAT::FUNCTION && f != EDGE_WEIGHT_FORMAT::FULL_MATRIX
}

/// The layout stores the diagonal.
pub open spec fn has_diagonal(f: EDGE_WEIGHT_FORMAT) -> bool {
    f == EDGE_WEIGHT_FORMAT::UPPER_DIAG_ROW || f == EDGE_WEIGHT_FORMAT::LOWER_DIAG_ROW
        || f == EDGE_WEIGHT_FORMAT::UPPER_DIAG_COL || f == EDGE_WEIGHT_FORMAT::LOWER_DIAG_COL
}

/// The stream goes row by row (and not column by column).
pub open spec fn is_row_major(f: EDGE_WEIGHT_FORMAT) -> bool {
    f == EDGE_WEIGHT_FORMAT::FULL_MATRIX || f == EDGE_WEIGHT_FORMAT::UPPER_ROW
        || f == EDGE_WEIGHT_FORMAT::LOWER_ROW || f == EDGE_WEIGHT_FORMAT::UPPER_DIAG_ROW
        || f == EDGE_WEIGHT_FORMAT::LOWER_DIAG_ROW
}

/// The layout stores the part above the diagonal.
pub open spec fn is_upper(f: EDGE_WEIGHT_FORMAT) -> bool {
    f == EDGE_WEIGHT_FORMAT::UPPER_ROW || f == EDGE_WEIGHT_FORMAT::UPPER_DIAG_ROW
        || f == EDGE_WEIGHT_FORMAT::UPPER_COL || f == EDGE_WEIGHT_FORMAT::UPPER_DIAG_COL
}

/// The runs of the layout shrink: an upper triangle read by rows, or a lower
/// one read by columns.
pub open spec fn runs_shrink(f: EDGE_WEIGHT_FORMAT) -> bool {
    is_triangular(f) && (is_row_major(f) == is_upper(f))
}

/// 1 where the diagonal is left out of a run, else 0.
pub open spec fn diagonal_gap(f: EDGE_WEIGHT_FORMAT) -> int {
    if has_diagonal(f) {
        0
    } else {
        1
    }
}

/// The number of weights in run `k` of a matrix of size `n`.
pub open spec fn run_len(f: EDGE_WEIGHT_FORMAT, n: int, k: int) -> int {
    if f == EDGE_WEIGHT_FORMAT::FUNCTION {
        0
    } else if f == EDGE_WEIGHT_FORMAT::FULL_MATRIX {
        n
    } else if runs_shrink(f) {
        n - k - diagonal_gap(f)
    } else {
        k + 1 - diagonal_gap(f)
    }
}

/// The place in the stream where run `k` begins.
pub open spec fn run_start(f: EDGE_WEIGHT_FORMAT, n: int, k: int) -> int
    decreases k,
{
    if k <= 0 {
        0
    } else {
        run_start(f, n, k - 1) + run_len(f, n, k - 1)
    }
}

/// The number of weights that the stream of a matrix of size `n` holds.
pub open spec fn stream_len(f: EDGE_WEIGHT_FORMAT, n: int) -> int {
    run_start(f, n, n)
}

/// `hm` has the shape of a half matrix: `n` runs of the lengths of the layout.
pub open spec fn is_half_matrix(hm: Seq<Seq<usize>>, f: EDGE_WEIGHT_FORMAT, n: int) -> bool {
    &&& hm.len() == n
    &&& forall|k: int| 0 <= k < n ==> (#[trigger] hm[k]).len() == run_len(f, n, k)
}

/// Where the rows of a half matrix leave the empty run out, row `k` is run
/// `k + row_shift`: the empty run is the last where the runs shrink, and the
/// first where they grow.
pub open spec fn row_shift(f: EDGE_WEIGHT_FORMAT) -> int {
    if runs_shrink(f) {
        0
    } else {
        1
    }
}

/// `rows` has the shape of a half matrix whose empty run is left out: the
/// layout stores a triangle without its diagonal, and the `n - 1` rows are
/// the runs that hold a weight.
pub open spec fn is_short_half_matrix(
    rows: Seq<Seq<usize>>,
    f: EDGE_WEIGHT_FORMAT,
    n: int,
) -> bool {
    &&& is_triangular(f)
    &&& !has_diagonal(f)
    &&& rows.len() == n - 1
    &&& forall|k: int|
        0 <= k < n - 1 ==> (#[trigger] rows[k]).len() == run_len(f, n, k + row_shift(f))
}

/// The rows with the empty run put in at its place.
pub open spec fn with_empty_run(rows: Seq<Seq<usize>>, f: EDGE_WEIGHT_FORMAT) -> Seq<Seq<usize>> {
    if runs_shrink(f) {
        rows.push(Seq::empty())
    } else {
        seq![Seq::empty()] + rows
    }
}

/// The rows are those of a half matrix of size `n`, with the empty run or
/// without it.
pub open spec fn are_half_matrix_rows(
    rows: Seq<Seq<usize>>,
    f: EDGE_WEIGHT_FORMAT,
    n: int,
) -> bool {
    is_half_matrix(rows, f, n) || is_short_half_matrix(rows, f, n)
}

/// The half matrix of size `n` that the rows stand for: the rows themselves
/// where there are `n` of them, and the rows with the empty run put in where
/// it was left out.
pub open spec fn runs_of_rows(rows: Seq<Seq<usize>>, f: EDGE_WEIGHT_FORMAT, n: int) -> Seq<
    Seq<usize>,
> {
    if rows.len() == n {
        rows
    } else {
        with_empty_run(rows, f)
    }
}

/// `m` is a square matrix of size `n`.
pub open spec fn is_square(m: Seq<Seq<usize>>, n: int) -> bool {
    &&& m.len() == n
    &&& forall|i: int| 0 <= i < n ==> (#[trigger] m[i]).len() == n
}

/// `m` equals its transpose.
pub open spec fn is_symmetric(m: Seq<Seq<usize>>) -> bool {
    forall|i: int, j: int|
        0 <= i < m.len() && 0 <= j < m.len() ==> #[trigger] m[i][j] == #[trigger] m[j][i]
}

/// The runs of a stream: run `k` is the piece from `run_start(k)` to
/// `run_start(k + 1)`.
pub open spec fn runs_of(stream: Seq<usize>, f: EDGE_WEIGHT_FORMAT, n: int) -> Seq<Seq<usize>> {
    Seq::new(
        n as nat,
        |k: int| stream.subrange(run_start(f, n, k), run_start(f, n, k + 1)),
    )
}

/// Cell `(i, j)` of the full matrix that a half matrix stands for. A triangle
/// is mirrored at the diagonal, and a diagonal that is not stored is zero.
pub open spec fn full_cell(hm: Seq<Seq<usize>>, f: EDGE_WEIGHT_FORMAT, i: int, j: int) -> usize {
    let lo = if i <= j { i } else { j };
    let hi = if i <= j { j } else { i };
    if f == EDGE_WEIGHT_FORMAT::FULL_MATRIX {
        hm[i][j]
    } else if i == j && !has_diagonal(f) {
        0
    } else if runs_shrink(f) {
        hm[lo][hi - lo - diagonal_gap(f)]
    } else {
        hm[hi][lo]
    }
}

/// The full matrix of size `n` that a half matrix stands for.
pub open spec fn full_matrix(hm: Seq<Seq<usize>>, f: EDGE_WEIGHT_FORMAT, n: int) -> Seq<Seq<usize>> {
    Seq::new(n as nat, |i: int| Seq::new(n as nat, |j: int| full_cell(hm, f, i, j)))
}

/// Entry `p` of run `k` as the layout reads it out of a full matrix.
pub open spec fn half_cell(m: Seq<Seq<usize>>, f: EDGE_WEIGHT_FORMAT, k: int, p: int) -> usize {
    let minor = if runs_shrink(f) { k + p + diagonal_gap(f) } else { p };
    if is_row_major(f) {
        m[k][minor]
    } else {
        m[minor][k]
    }
}

/// The half matrix that the layout reads out of a full matrix of size `n`.
pub open spec fn half_matrix(m: Seq<Seq<usize>>, f: EDGE_WEIGHT_FORMAT, n: int) -> Seq<Seq<usize>> {
    Seq::new(
        n as nat,
        |k: int| Seq::new(run_len(f, n, k) as nat, |p: int| half_cell(m, f, k, p)),
    )
}

/// The full matrix that a stream of weights stands for.
pub open spec fn expand(stream: Seq<usize>, f: EDGE_WEIGHT_FORMAT, n: int) -> Seq<Seq<usize>> {
    full_matrix(runs_of(stream, f, n), f, n)
}

/// The place in the stream of the weight of cell `(i, j)`: the start of the
/// run of the cell and the place of the cell in its run. A cell of a triangle
/// has the place of its mirror image where the layout does not store the
/// cell itself, and a cell of a diagonal that is not stored has no place.
pub open spec fn linear_offset(f: EDGE_WEIGHT_FORMAT, n: int, i: int, j: int) -> Option<int> {
    let lo = if i <= j { i } else { j };
    let hi = if i <= j { j } else { i };
    if f == EDGE_WEIGHT_FORMAT::FULL_MATRIX {
        Some(run_start(f, n, i) + j)
    } else if i == j && !has_diagonal(f) {
        None
    } else if runs_shrink(f) {
        Some(run_start(f, n, lo) + hi - lo - diagonal_gap(f))
    } else {
        Some(run_start(f, n, hi) + lo)
    }
}

/// The stream that the layout writes for a full matrix.
pub open spec fn encode(m: Seq<Seq<usize>>, f: EDGE_WEIGHT_FORMAT, n: int) -> Seq<usize> {
    joined(half_matrix(m, f, n))
}

/// The rows of a matrix as sequences.
pub open spec fn matrix_view(m: &Vec<Vec<usize>>) -> Seq<Seq<usize>> {
    Seq::new(m@.len(), |i: int| m@[i]@)
}

/// Run `k + 1` begins where run `k` ends.
pub proof fn lemma_run_start_step(f: EDGE_WEIGHT_FORMAT, n: int, k: int)
    requires
        0 <= k,
    ensures
        run_start(f, n, k + 1) == run_start(f, n, k) + run_len(f, n, k),
{
}

/// No run of a matrix of size `n` has a negative length, and the runs begin
/// in increasing order.
pub proof fn lemma_run_start_monotone(f: EDGE_WEIGHT_FORMAT, n: int, a: int, b: int)
    requires
        0 <= a <= b <= n,
    ensures
        0 <= run_start(f, n, a) <= run_start(f, n, b),
    decreases b,
{
    if b > 0 {
        if a < b {
            lemma_run_start_monotone(f, n, a, b - 1);
        } else {
            lemma_run_start_monotone(f, n, a - 1, b - 1);
        }
    }
}

/// Twice the place where run `k` begins, in closed form.
pub open spec fn twice_run_start(f: EDGE_WEIGHT_FORMAT, n: int, k: int) -> int {
    if f == EDGE_WEIGHT_FORMAT::FUNCTION {
        0
    } else if f == EDGE_WEIGHT_FORMAT::FULL_MATRIX {
        2 * k * n
    } else if runs_shrink(f) {
        2 * k * (n - diagonal_gap(f)) - k * (k - 1)
    } else {
        k * (k + 1 - 2 * diagonal_gap(f))
    }
}

/// The closed form of `run_start`.
pub proof fn lemma_run_start_closed_form(f: EDGE_WEIGHT_FORMAT, n: int, k: int)
    requires
        0 <= k,
    ensures
        2 * run_start(f, n, k) == twice_run_start(f, n, k),
    decreases k,
{
    if k > 0 {
        lemma_run_start_closed_form(f, n, k - 1);
        let g = diagonal_gap(f);
        assert(2 * (k - 1) * n + 2 * n == 2 * k * n) by (nonlinear_arith);
        assert(2 * (k - 1) * (n - g) - (k - 1) * (k - 2) + 2 * (n - (k - 1) - g) == 2 * k * (n - g)
            - k * (k - 1)) by (nonlinear_arith);
        assert((k - 1) * (k - 2 * g) + 2 * (k - g) == k * (k + 1 - 2 * g)) by (nonlinear_arith);
    } else {
        let g = diagonal_gap(f);
        assert(2 * k * n == 0 && k * (k + 1 - 2 * g) == 0 && 2 * k * (n - g) - k * (k - 1) == 0)
            by (nonlinear_arith)
            requires
                k == 0,
        ;
    }
}

/// The length of the stream: `n * n` for the full matrix, `n * (n + 1) / 2`
/// for a triangle with its diagonal, `n * (n - 1) / 2` for one without, and
/// nothing where the weights are given by a function.
pub proof fn lemma_stream_len(f: EDGE_WEIGHT_FORMAT, n: int)
    requires
        0 <= n,
    ensures
        f == EDGE_WEIGHT_FORMAT::FUNCTION ==> stream_len(f, n) == 0,
        f == EDGE_WEIGHT_FORMAT::FULL_MATRIX ==> stream_len(f, n) == n * n,
        is_triangular(f) && has_diagonal(f) ==> stream_len(f, n) == n * (n + 1) / 2,
        is_triangular(f) && !has_diagonal(f) ==> stream_len(f, n) == n * (n - 1) / 2,
{
    lemma_run_start_closed_form(f, n, n);
    assert(2 * n * n == 2 * (n * n)) by (nonlinear_arith);
    assert(2 * n * n - n * (n - 1) == n * (n + 1)) by (nonlinear_arith);
    assert(2 * n * (n - 1) - n * (n - 1) == n * (n - 1)) by (nonlinear_arith);
    assert(n * (n + 1 - 2) == n * (n - 1)) by (nonlinear_arith);
    assert(n * (n + 1 - 0) == n * (n + 1)) by (nonlinear_arith);
}

/// The first `k` runs of a stream, one after the other, are the stream up to
/// the start of run `k`.
pub proof fn lemma_runs_join_to_stream(stream: Seq<usize>, f: EDGE_WEIGHT_FORMAT, n: int, k: int)
    requires
        0 <= k <= n,
        stream_len(f, n) <= stream.len(),
    ensures
        0 <= run_start(f, n, k) <= stream.len(),
        joined(runs_of(stream, f, n).take(k)) == stream.subrange(0, run_start(f, n, k)),
    decreases k,
{
    lemma_run_start_monotone(f, n, k, n);
    let runs = runs_of(stream, f, n);
    if k == 0 {
        assert(runs.take(0).len() == 0);
        assert(stream.subrange(0, 0) =~= Seq::<usize>::empty());
    } else {
        lemma_runs_join_to_stream(stream, f, n, k - 1);
        lemma_run_start_monotone(f, n, k - 1, k);
        assert(runs.take(k).drop_last() =~= runs.take(k - 1));
        assert(runs.take(k).last() == runs[k - 1]);
        assert(stream.subrange(0, run_start(f, n, k - 1)) + stream.subrange(
            run_start(f, n, k - 1),
            run_start(f, n, k),
        ) =~= stream.subrange(0, run_start(f, n, k)));
    }
}

/// Reading the half matrix out of the full matrix that it stands for gives
/// it back.
pub proof fn lemma_half_of_full(hm: Seq<Seq<usize>>, f: EDGE_WEIGHT_FORMAT, n: int)
    requires
        0 <= n,
        is_half_matrix(hm, f, n),
    ensures
        half_matrix(full_matrix(hm, f, n), f, n) == hm,
{
    let m = full_matrix(hm, f, n);
    let back = half_matrix(m, f, n);
    assert(back.len() == hm.len());
    assert forall|k: int| 0 <= k < n implies #[trigger] back[k] == hm[k] by {
        assert(back[k].len() == hm[k].len());
        assert forall|p: int| 0 <= p < back[k].len() implies back[k][p] == hm[k][p] by {
            let minor = if runs_shrink(f) { k + p + diagonal_gap(f) } else { p };
            assert(0 <= minor < n);
            assert(back[k][p] == half_cell(m, f, k, p));
            if is_row_major(f) {
                assert(m[k][minor] == full_cell(hm, f, k, minor));
            } else {
                assert(m[minor][k] == full_cell(hm, f, minor, k));
            }
        }
        assert(back[k] =~= hm[k]);
    }
    assert(back =~= hm);
}

/// Rows behind an empty row hold, one after the other, what the rows hold.
pub proof fn lemma_joined_behind_empty(rows: Seq<Seq<usize>>)
    ensures
        joined(seq![Seq::<usize>::empty()] + rows) == joined(rows),
    decreases rows.len(),
{
    let first = seq![Seq::<usize>::empty()];
    if rows.len() == 0 {
        assert(first + rows =~= first);
        assert(first.drop_last() =~= Seq::<Seq<usize>>::empty());
        assert(joined(first) =~= joined(first.drop_last()) + first.last());
        assert(joined(first) =~= Seq::<usize>::empty());
        assert(joined(rows) =~= Seq::<usize>::empty());
    } else {
        lemma_joined_behind_empty(rows.drop_last());
        assert((first + rows).drop_last() =~= first + rows.drop_last());
        assert((first + rows).last() == rows.last());
    }
}

/// Rows that leave the empty run out are, with the empty run put in, a half
/// matrix that holds the same weights in the same order.
pub proof fn lemma_empty_run_put_in(rows: Seq<Seq<usize>>, f: EDGE_WEIGHT_FORMAT, n: int)
    requires
        is_short_half_matrix(rows, f, n),
    ensures
        is_half_matrix(with_empty_run(rows, f), f, n),
        joined(with_empty_run(rows, f)) == joined(rows),
{
    let runs = with_empty_run(rows, f);
    if runs_shrink(f) {
        assert(runs.drop_last() =~= rows);
        assert(joined(runs) =~= joined(rows));
        assert forall|k: int| 0 <= k < n implies (#[trigger] runs[k]).len() == run_len(f, n, k) by {
            if k < n - 1 {
                assert(runs[k] == rows[k]);
            }
        }
    } else {
        lemma_joined_behind_empty(rows);
        assert forall|k: int| 0 <= k < n implies (#[trigger] runs[k]).len() == run_len(f, n, k) by {
            if k > 0 {
                assert(runs[k] == rows[k - 1]);
            }
        }
    }
}

/// The full matrix that the rows of a half matrix stand for is square, and
/// symmetric for a triangle, with zeros on a diagonal that is not stored;
/// written in the layout of the rows it gives the weights of the rows back,
/// in their order.
pub proof fn lemma_rows_round_trip(rows: Seq<Seq<usize>>, f: EDGE_WEIGHT_FORMAT, n: int)
    requires
        0 <= n,
        are_half_matrix_rows(rows, f, n),
    ensures
        is_half_matrix(runs_of_rows(rows, f, n), f, n),
        is_square(full_matrix(runs_of_rows(rows, f, n), f, n), n),
        f != EDGE_WEIGHT_FORMAT::FULL_MATRIX ==> is_symmetric(
            full_matrix(runs_of_rows(rows, f, n), f, n),
        ),
        is_triangular(f) && !has_diagonal(f) ==> forall|i: int|
            0 <= i < n ==> (#[trigger] full_matrix(runs_of_rows(rows, f, n), f, n)[i])[i] == 0,
        encode(full_matrix(runs_of_rows(rows, f, n), f, n), f, n) == joined(rows),
{
    if rows.len() != n {
        lemma_empty_run_put_in(rows, f, n);
    }
    let runs = runs_of_rows(rows, f, n);
    lemma_full_matrix_shape(runs, f, n);
    lemma_half_of_full(runs, f, n);
    let m = full_matrix(runs, f, n);
    assert forall|i: int| 0 <= i < n implies (#[trigger] m[i])[i] == full_cell(runs, f, i, i) by {}
}

/// The full matrix of a triangle is square and symmetric; that of the full
/// layout is square.
pub proof fn lemma_full_matrix_shape(hm: Seq<Seq<usize>>, f: EDGE_WEIGHT_FORMAT, n: int)
    requires
        0 <= n,
    ensures
        is_square(full_matrix(hm, f, n), n),
        f != EDGE_WEIGHT_FORMAT::FULL_MATRIX ==> is_symmetric(full_matrix(hm, f, n)),
{
    let m = full_matrix(hm, f, n);
    assert forall|i: int| 0 <= i < n implies (#[trigger] m[i]).len() == n by {}
    if f != EDGE_WEIGHT_FORMAT::FULL_MATRIX {
        assert forall|i: int, j: int| 0 <= i < m.len() && 0 <= j < m.len() implies #[trigger] m[i][j]
            == #[trigger] m[j][i] by {
            assert(m[i][j] == full_cell(hm, f, i, j));
            assert(m[j][i] == full_cell(hm, f, j, i));
        }
    }
}

/// Each cell of the expanded matrix holds the weight at its place in the
/// stream, and a cell without a place holds zero.
pub proof fn lemma_expand_by_offset(
    stream: Seq<usize>,
    f: EDGE_WEIGHT_FORMAT,
    n: int,
    i: int,
    j: int,
)
    requires
        f != EDGE_WEIGHT_FORMAT::FUNCTION,
        stream.len() == stream_len(f, n),
        0 <= i < n,
        0 <= j < n,
    ensures
        match linear_offset(f, n, i, j) {
            Some(k) => 0 <= k < stream.len() && expand(stream, f, n)[i][j] == stream[k],
            None => expand(stream, f, n)[i][j] == 0,
        },
{
    let lo = if i <= j { i } else { j };
    let hi = if i <= j { j } else { i };
    let runs = runs_of(stream, f, n);
    assert(expand(stream, f, n)[i][j] == full_cell(runs, f, i, j));
    lemma_run_start_monotone(f, n, i, i + 1);
    lemma_run_start_monotone(f, n, i + 1, n);
    lemma_run_start_step(f, n, i);
    lemma_run_start_monotone(f, n, lo, lo + 1);
    lemma_run_start_monotone(f, n, lo + 1, n);
    lemma_run_start_step(f, n, lo);
    lemma_run_start_monotone(f, n, hi, hi + 1);
    lemma_run_start_monotone(f, n, hi + 1, n);
    lemma_run_start_step(f, n, hi);
}

/// Expanding a stream of the right length into the full matrix and writing
/// that matrix in the same layout gives the stream back. This holds of each
/// layout.
pub proof fn lemma_expand_then_encode(stream: Seq<usize>, f: EDGE_WEIGHT_FORMAT, n: int)
    requires
        0 <= n,
        stream.len() == stream_len(f, n),
    ensures
        encode(expand(stream, f, n), f, n) == stream,
{
    let runs = runs_of(stream, f, n);
    assert forall|k: int| 0 <= k < n implies (#[trigger] runs[k]).len() == run_len(f, n, k) by {
        lemma_run_start_monotone(f, n, k, k + 1);
        lemma_run_start_monotone(f, n, k + 1, n);
        lemma_run_start_step(f, n, k);
    }
    lemma_half_of_full(runs, f, n);
    lemma_runs_join_to_stream(stream, f, n, n);
    assert(runs.take(n) =~= runs);
    assert(stream.subrange(0, stream.len() as int) =~= stream);
}

} // verus!
