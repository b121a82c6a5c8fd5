use cvrp::model::utils::{
    flatten_rows, from_fmatrix_to_hmatrix, from_hmatrix_to_fmatrix, run_length, split_into_runs,
};
use cvrp::tsplib_parser::keyword_values::EDGE_WEIGHT_FORMAT;
use cvrp::tsplib_parser::parser_functions::compute_edge_weight_matrix;

const TRIANGLES: [EDGE_WEIGHT_FORMAT; 8] = [
    EDGE_WEIGHT_FORMAT::UPPER_ROW,
    EDGE_WEIGHT_FORMAT::LOWER_ROW,
    EDGE_WEIGHT_FORMAT::UPPER_DIAG_ROW,
    EDGE_WEIGHT_FORMAT::LOWER_DIAG_ROW,
    EDGE_WEIGHT_FORMAT::UPPER_COL,
    EDGE_WEIGHT_FORMAT::LOWER_COL,
    EDGE_WEIGHT_FORMAT::UPPER_DIAG_COL,
    EDGE_WEIGHT_FORMAT::LOWER_DIAG_COL,
];

fn expand(stream: Vec<usize>, format: EDGE_WEIGHT_FORMAT, n: usize) -> Option<Vec<Vec<usize>>> {
    compute_edge_weight_matrix(Some(vec![stream]), format, n)
}

#[test]
fn upper_row_is_expanded_and_mirrored() {
    // 0 1 2 3 / . 0 4 5 / . . 0 6 / . . . 0
    let m = expand(vec![1, 2, 3, 4, 5, 6], EDGE_WEIGHT_FORMAT::UPPER_ROW, 4).unwrap();
    assert_eq!(
        m,
        vec![vec![0, 1, 2, 3], vec![1, 0, 4, 5], vec![2, 4, 0, 6], vec![3, 5, 6, 0]]
    );
}

#[test]
fn lower_row_is_expanded_and_mirrored() {
    // rows: (1,0) / (2,0) (2,1) / (3,0) (3,1) (3,2)
    let m = expand(vec![1, 2, 3, 4, 5, 6], EDGE_WEIGHT_FORMAT::LOWER_ROW, 4).unwrap();
    assert_eq!(
        m,
        vec![vec![0, 1, 2, 4], vec![1, 0, 3, 5], vec![2, 3, 0, 6], vec![4, 5, 6, 0]]
    );
}

#[test]
fn upper_diag_row_keeps_the_diagonal() {
    let m = expand(vec![7, 1, 2, 8, 3, 9], EDGE_WEIGHT_FORMAT::UPPER_DIAG_ROW, 3).unwrap();
    assert_eq!(m, vec![vec![7, 1, 2], vec![1, 8, 3], vec![2, 3, 9]]);
}

#[test]
fn lower_diag_row_keeps_the_diagonal() {
    let m = expand(vec![7, 1, 8, 2, 3, 9], EDGE_WEIGHT_FORMAT::LOWER_DIAG_ROW, 3).unwrap();
    assert_eq!(m, vec![vec![7, 1, 2], vec![1, 8, 3], vec![2, 3, 9]]);
}

#[test]
fn upper_col_reads_columns() {
    // columns: (0,1) / (0,2) (1,2) / (0,3) (1,3) (2,3)
    let m = expand(vec![1, 2, 3, 4, 5, 6], EDGE_WEIGHT_FORMAT::UPPER_COL, 4).unwrap();
    assert_eq!(
        m,
        vec![vec![0, 1, 2, 4], vec![1, 0, 3, 5], vec![2, 3, 0, 6], vec![4, 5, 6, 0]]
    );
}

#[test]
fn lower_col_reads_columns() {
    // columns: (1,0) (2,0) (3,0) / (2,1) (3,1) / (3,2)
    let m = expand(vec![1, 2, 3, 4, 5, 6], EDGE_WEIGHT_FORMAT::LOWER_COL, 4).unwrap();
    assert_eq!(
        m,
        vec![vec![0, 1, 2, 3], vec![1, 0, 4, 5], vec![2, 4, 0, 6], vec![3, 5, 6, 0]]
    );
}

#[test]
fn upper_diag_col_and_lower_diag_col() {
    let upper = expand(vec![7, 1, 8, 2, 3, 9], EDGE_WEIGHT_FORMAT::UPPER_DIAG_COL, 3).unwrap();
    assert_eq!(upper, vec![vec![7, 1, 2], vec![1, 8, 3], vec![2, 3, 9]]);
    let lower = expand(vec![7, 1, 2, 8, 3, 9], EDGE_WEIGHT_FORMAT::LOWER_DIAG_COL, 3).unwrap();
    assert_eq!(lower, vec![vec![7, 1, 2], vec![1, 8, 3], vec![2, 3, 9]]);
}

#[test]
fn full_matrix_is_taken_row_by_row() {
    let m = expand(vec![0, 1, 2, 3, 0, 4, 5, 6, 0], EDGE_WEIGHT_FORMAT::FULL_MATRIX, 3).unwrap();
    assert_eq!(m, vec![vec![0, 1, 2], vec![3, 0, 4], vec![5, 6, 0]]);
}

#[test]
fn rows_of_the_section_are_joined_before_they_are_cut() {
    let section = vec![vec![1, 2], vec![3], vec![4, 5, 6]];
    let m = compute_edge_weight_matrix(Some(section), EDGE_WEIGHT_FORMAT::UPPER_ROW, 4).unwrap();
    assert_eq!(
        m,
        vec![vec![0, 1, 2, 3], vec![1, 0, 4, 5], vec![2, 4, 0, 6], vec![3, 5, 6, 0]]
    );
}

#[test]
fn a_stream_of_the_wrong_length_has_no_matrix() {
    assert_eq!(expand(vec![1, 2, 3, 4, 5], EDGE_WEIGHT_FORMAT::UPPER_ROW, 4), None);
    assert_eq!(expand(vec![1, 2, 3, 4, 5, 6, 7], EDGE_WEIGHT_FORMAT::UPPER_ROW, 4), None);
    assert_eq!(expand(vec![1, 2, 3], EDGE_WEIGHT_FORMAT::FULL_MATRIX, 2), None);
}

#[test]
fn a_function_has_no_matrix() {
    assert_eq!(expand(vec![], EDGE_WEIGHT_FORMAT::FUNCTION, 3), None);
    assert_eq!(compute_edge_weight_matrix(None, EDGE_WEIGHT_FORMAT::UPPER_ROW, 3), None);
}

#[test]
fn stream_lengths_of_the_layouts() {
    for n in 0..7usize {
        for format in TRIANGLES {
            let total: usize = (0..n).map(|k| run_length(format, n, k)).sum();
            let with_diagonal = matches!(
                format,
                EDGE_WEIGHT_FORMAT::UPPER_DIAG_ROW
                    | EDGE_WEIGHT_FORMAT::LOWER_DIAG_ROW
                    | EDGE_WEIGHT_FORMAT::UPPER_DIAG_COL
                    | EDGE_WEIGHT_FORMAT::LOWER_DIAG_COL
            );
            if with_diagonal {
                assert_eq!(total, n * (n + 1) / 2);
            } else {
                assert_eq!(total, n * n.saturating_sub(1) / 2);
            }
        }
        let full: usize = (0..n).map(|k| run_length(EDGE_WEIGHT_FORMAT::FULL_MATRIX, n, k)).sum();
        assert_eq!(full, n * n);
    }
}

#[test]
fn expanding_and_writing_back_gives_the_stream() {
    let mut formats = TRIANGLES.to_vec();
    formats.push(EDGE_WEIGHT_FORMAT::FULL_MATRIX);
    for n in 0..6usize {
        for format in formats.iter().copied() {
            let len: usize = (0..n).map(|k| run_length(format, n, k)).sum();
            let stream: Vec<usize> = (0..len).map(|k| 100 + 7 * k).collect();
            let runs = split_into_runs(&stream, format, n).unwrap();
            let full = from_hmatrix_to_fmatrix(&Some(runs.clone()), n, format).unwrap();
            assert_eq!(full.len(), n);
            let back = from_fmatrix_to_hmatrix(&full, n, format).unwrap();
            assert_eq!(back, runs);
            assert_eq!(flatten_rows(&back), stream);
        }
    }
}

#[test]
fn triangles_expand_to_symmetric_matrices() {
    for format in TRIANGLES {
        let n = 5usize;
        let len: usize = (0..n).map(|k| run_length(format, n, k)).sum();
        let stream: Vec<usize> = (0..len).map(|k| 3 * k + 1).collect();
        let m = expand(stream, format, n).unwrap();
        for i in 0..n {
            for j in 0..n {
                assert_eq!(m[i][j], m[j][i]);
            }
        }
    }
}

#[test]
fn rows_without_the_empty_run_are_expanded() {
    let full = Some(vec![vec![0, 1, 2], vec![1, 0, 3], vec![2, 3, 0]]);
    // the runs shrink: the empty run would be the last
    let shrinking = Some(vec![vec![1, 2], vec![3]]);
    assert_eq!(from_hmatrix_to_fmatrix(&shrinking, 3, EDGE_WEIGHT_FORMAT::UPPER_ROW), full);
    assert_eq!(from_hmatrix_to_fmatrix(&shrinking, 3, EDGE_WEIGHT_FORMAT::LOWER_COL), full);
    // the runs grow: the empty run would be the first
    let growing = Some(vec![vec![1], vec![2, 3]]);
    assert_eq!(from_hmatrix_to_fmatrix(&growing, 3, EDGE_WEIGHT_FORMAT::LOWER_ROW), full);
    assert_eq!(from_hmatrix_to_fmatrix(&growing, 3, EDGE_WEIGHT_FORMAT::UPPER_COL), full);
    // with the empty run the matrix is the same
    let shrinking_whole = Some(vec![vec![1, 2], vec![3], vec![]]);
    let growing_whole = Some(vec![vec![], vec![1], vec![2, 3]]);
    assert_eq!(from_hmatrix_to_fmatrix(&shrinking_whole, 3, EDGE_WEIGHT_FORMAT::UPPER_ROW), full);
    assert_eq!(from_hmatrix_to_fmatrix(&shrinking_whole, 3, EDGE_WEIGHT_FORMAT::LOWER_COL), full);
    assert_eq!(from_hmatrix_to_fmatrix(&growing_whole, 3, EDGE_WEIGHT_FORMAT::LOWER_ROW), full);
    assert_eq!(from_hmatrix_to_fmatrix(&growing_whole, 3, EDGE_WEIGHT_FORMAT::UPPER_COL), full);
    // the rows of the one shape are not rows of the other
    assert_eq!(from_hmatrix_to_fmatrix(&shrinking, 3, EDGE_WEIGHT_FORMAT::LOWER_ROW), None);
    assert_eq!(from_hmatrix_to_fmatrix(&shrinking, 3, EDGE_WEIGHT_FORMAT::UPPER_COL), None);
    assert_eq!(from_hmatrix_to_fmatrix(&growing, 3, EDGE_WEIGHT_FORMAT::UPPER_ROW), None);
    assert_eq!(from_hmatrix_to_fmatrix(&growing, 3, EDGE_WEIGHT_FORMAT::LOWER_COL), None);
    // a layout with its diagonal has no empty run to leave out
    for format in [
        EDGE_WEIGHT_FORMAT::UPPER_DIAG_ROW,
        EDGE_WEIGHT_FORMAT::LOWER_DIAG_ROW,
        EDGE_WEIGHT_FORMAT::UPPER_DIAG_COL,
        EDGE_WEIGHT_FORMAT::LOWER_DIAG_COL,
        EDGE_WEIGHT_FORMAT::FULL_MATRIX,
        EDGE_WEIGHT_FORMAT::FUNCTION,
    ] {
        assert_eq!(from_hmatrix_to_fmatrix(&shrinking, 3, format), None);
        assert_eq!(from_hmatrix_to_fmatrix(&growing, 3, format), None);
    }
    // one node alone, and too few rows
    assert_eq!(
        from_hmatrix_to_fmatrix(&Some(Vec::new()), 1, EDGE_WEIGHT_FORMAT::UPPER_ROW),
        Some(vec![vec![0]])
    );
    assert_eq!(
        from_hmatrix_to_fmatrix(&Some(vec![vec![1, 2]]), 3, EDGE_WEIGHT_FORMAT::UPPER_ROW),
        None
    );
    let too_long = Some(vec![vec![1, 2], vec![3, 4]]);
    assert_eq!(from_hmatrix_to_fmatrix(&too_long, 3, EDGE_WEIGHT_FORMAT::UPPER_ROW), None);
}

#[test]
fn rows_without_the_empty_run_come_back_from_the_full_matrix() {
    let shrinking = [EDGE_WEIGHT_FORMAT::UPPER_ROW, EDGE_WEIGHT_FORMAT::LOWER_COL];
    let growing = [EDGE_WEIGHT_FORMAT::LOWER_ROW, EDGE_WEIGHT_FORMAT::UPPER_COL];
    for n in 1..7usize {
        for format in shrinking.into_iter().chain(growing) {
            let len = n * (n - 1) / 2;
            let stream: Vec<usize> = (0..len).map(|k| 50 + 3 * k).collect();
            let runs = split_into_runs(&stream, format, n).unwrap();
            let mut rows = runs.clone();
            if shrinking.contains(&format) {
                assert_eq!(rows.pop(), Some(Vec::new()));
            } else {
                assert_eq!(rows.remove(0), Vec::<usize>::new());
            }
            assert_eq!(rows.len(), n - 1);
            let full = from_hmatrix_to_fmatrix(&Some(rows.clone()), n, format).unwrap();
            assert_eq!(Some(full.clone()), from_hmatrix_to_fmatrix(&Some(runs.clone()), n, format));
            assert_eq!(full.len(), n);
            for i in 0..n {
                assert_eq!(full[i].len(), n);
                assert_eq!(full[i][i], 0);
                for j in 0..n {
                    assert_eq!(full[i][j], full[j][i]);
                }
            }
            let back = from_fmatrix_to_hmatrix(&full, n, format).unwrap();
            assert_eq!(flatten_rows(&back), flatten_rows(&rows));
            assert_eq!(flatten_rows(&back), stream);
        }
    }
}

#[test]
fn a_half_matrix_of_the_wrong_shape_has_no_full_matrix() {
    let bad = Some(vec![vec![1, 2], vec![3], vec![4]]);
    assert_eq!(from_hmatrix_to_fmatrix(&bad, 3, EDGE_WEIGHT_FORMAT::UPPER_ROW), None);
    assert_eq!(from_hmatrix_to_fmatrix(&None, 3, EDGE_WEIGHT_FORMAT::UPPER_ROW), None);
    let good = Some(vec![vec![1, 2], vec![3], vec![]]);
    assert_eq!(
        from_hmatrix_to_fmatrix(&good, 3, EDGE_WEIGHT_FORMAT::UPPER_ROW),
        Some(vec![vec![0, 1, 2], vec![1, 0, 3], vec![2, 3, 0]])
    );
    assert_eq!(from_hmatrix_to_fmatrix(&good, 3, EDGE_WEIGHT_FORMAT::FUNCTION), None);
    assert_eq!(
        from_fmatrix_to_hmatrix(&vec![vec![1, 2], vec![3]], 2, EDGE_WEIGHT_FORMAT::FULL_MATRIX),
        None
    );
}
