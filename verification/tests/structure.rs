use tinymatrix::Matrix;
use tinymatrix::MatrixError;

fn mat(rows: usize, cols: usize, values: Vec<i64>) -> Matrix {
    Matrix::from_vector(rows, cols, values).unwrap()
}

fn flat(m: &Matrix) -> Vec<i64> {
    let mut out = Vec::new();
    for i in 0..m.rows() {
        for j in 0..m.cols() {
            out.push(m.get(i, j));
        }
    }
    out
}

#[test]
fn main_diagonal_splits_square_matrix() {
    let m = mat(3, 3, vec![1, 2, 3, 4, 5, 6, 7, 8, 9]);
    let (diag, above, below) = m.main_diagonal().unwrap();
    assert_eq!(diag, vec![1, 5, 9]);
    assert_eq!(above, vec![2, 3, 6]);
    assert_eq!(below, vec![4, 7, 8]);
}

#[test]
fn main_diagonal_partition_sizes() {
    let n = 4;
    let m = Matrix::new(n, n);
    let (diag, above, below) = m.main_diagonal().unwrap();
    assert_eq!(diag.len(), n);
    assert_eq!(above.len(), n * (n - 1) / 2);
    assert_eq!(below.len(), n * (n - 1) / 2);
    assert_eq!(diag.len() + above.len() + below.len(), n * n);
}

#[test]
fn main_diagonal_of_empty_matrix() {
    let m = Matrix::new(0, 0);
    let (diag, above, below) = m.main_diagonal().unwrap();
    assert!(diag.is_empty());
    assert!(above.is_empty());
    assert!(below.is_empty());
}

#[test]
fn main_diagonal_rejects_non_square() {
    let m = mat(2, 3, vec![1, 2, 3, 4, 5, 6]);
    assert_eq!(m.main_diagonal().unwrap_err(), MatrixError::NotSquare);
}

#[test]
fn diagonal_matrix_is_both_triangular() {
    let m = mat(2, 2, vec![1, 0, 0, 4]);
    assert!(m.is_u_triangular());
    assert!(m.is_l_triangular());
}

#[test]
fn upper_triangular_allows_entries_above() {
    let m = mat(3, 3, vec![1, 2, 3, 0, 4, 5, 0, 0, 6]);
    assert!(m.is_u_triangular());
    assert!(!m.is_l_triangular());
}

#[test]
fn lower_triangular_allows_entries_below() {
    let m = mat(3, 3, vec![1, 0, 0, 2, 3, 0, 4, 5, 6]);
    assert!(m.is_l_triangular());
    assert!(!m.is_u_triangular());
}

#[test]
fn triangular_tests_reject_non_square() {
    let m = mat(1, 2, vec![1, 0]);
    assert!(!m.is_u_triangular());
    assert!(!m.is_l_triangular());
}

#[test]
fn concat_rows_joins_rows_side_by_side() {
    let a = mat(2, 2, vec![1, 2, 3, 4]);
    let b = mat(2, 3, vec![5, 6, 7, 8, 9, 10]);
    let j = a.concat_rows(&b).unwrap();
    assert_eq!(j.rows(), 2);
    assert_eq!(j.cols(), 5);
    assert_eq!(flat(&j), vec![1, 2, 5, 6, 7, 3, 4, 8, 9, 10]);
}

#[test]
fn concat_rows_rejects_mismatched_row_counts() {
    let a = mat(2, 2, vec![1, 2, 3, 4]);
    let b = mat(1, 2, vec![5, 6]);
    assert_eq!(a.concat_rows(&b).unwrap_err(), MatrixError::RowCountMismatch);
}

#[test]
fn concat_cols_two_by_two_scenario() {
    let a = mat(2, 2, vec![1, 2, 3, 4]);
    let b = mat(2, 2, vec![5, 6, 7, 8]);
    let j = a.concat_cols(&b).unwrap();
    assert_eq!(j.rows(), 2);
    assert_eq!(j.cols(), 4);
    for i in 0..2 {
        assert_eq!(j.get(i, 0), a.get(i, 0));
        assert_eq!(j.get(i, 1), a.get(i, 1));
        assert_eq!(j.get(i, 2), b.get(i, 0));
        assert_eq!(j.get(i, 3), b.get(i, 1));
    }
}

#[test]
fn concat_cols_rejects_mismatched_column_counts() {
    let a = mat(2, 2, vec![1, 2, 3, 4]);
    let b = mat(2, 3, vec![5, 6, 7, 8, 9, 10]);
    assert_eq!(a.concat_cols(&b).unwrap_err(), MatrixError::ColCountMismatch);
}

#[test]
fn determinant_is_unsupported() {
    let m = mat(2, 2, vec![1, 2, 3, 4]);
    assert_eq!(m.determinant().unwrap_err(), MatrixError::Unsupported);
}

#[test]
fn lu_decomposition_is_unsupported() {
    let m = mat(2, 2, vec![1, 2, 3, 4]);
    assert_eq!(m.lu_decomposition().unwrap_err(), MatrixError::Unsupported);
}
