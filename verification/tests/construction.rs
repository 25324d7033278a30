use tinymatrix::Matrix;
use tinymatrix::MatrixError;

fn mat(rows: usize, cols: usize, values: Vec<i64>) -> Matrix {
    Matrix::from_vector(rows, cols, values).unwrap()
}

#[test]
fn new_is_all_zero() {
    let m = Matrix::new(2, 3);
    assert_eq!(m.rows(), 2);
    assert_eq!(m.cols(), 3);
    for i in 0..2 {
        for j in 0..3 {
            assert_eq!(m.get(i, j), 0);
        }
    }
}

#[test]
fn new_empty_shapes() {
    let m = Matrix::new(0, 0);
    assert_eq!(m.rows(), 0);
    assert_eq!(m.cols(), 0);
    let m = Matrix::new(0, 5);
    assert_eq!(m.rows(), 0);
    assert_eq!(m.cols(), 5);
}

#[test]
fn from_vector_round_trip() {
    let values = vec![1, 2, 3, 4, 5, 6];
    let m = mat(2, 3, values.clone());
    for i in 0..2 {
        for j in 0..3 {
            assert_eq!(m.get(i, j), values[i * 3 + j]);
        }
    }
}

#[test]
fn from_vector_get_scenario() {
    let m = mat(2, 2, vec![1, 2, 3, 4]);
    assert_eq!(m.get(1, 0), 3);
}

#[test]
fn from_vector_rejects_wrong_length() {
    let r = Matrix::from_vector(2, 2, vec![1, 2, 3]);
    assert_eq!(r.unwrap_err(), MatrixError::LengthMismatch);
    let r = Matrix::from_vector(3, 0, vec![1]);
    assert_eq!(r.unwrap_err(), MatrixError::LengthMismatch);
}

#[test]
fn from_vector_accepts_empty() {
    let m = mat(0, 7, Vec::new());
    assert_eq!(m.rows(), 0);
    assert_eq!(m.cols(), 7);
}

#[test]
fn set_overwrites_one_cell() {
    let mut m = mat(2, 2, vec![1, 2, 3, 4]);
    m.set(0, 1, 9);
    assert_eq!(m.get(0, 0), 1);
    assert_eq!(m.get(0, 1), 9);
    assert_eq!(m.get(1, 0), 3);
    assert_eq!(m.get(1, 1), 4);
}

#[test]
fn is_squared_checks_shape() {
    assert!(Matrix::new(3, 3).is_squared());
    assert!(!Matrix::new(2, 3).is_squared());
    assert!(Matrix::new(0, 0).is_squared());
}

#[test]
fn transpose_swaps_shape_and_cells() {
    let m = mat(2, 3, vec![1, 2, 3, 4, 5, 6]);
    let t = m.transpose();
    assert_eq!(t.rows(), 3);
    assert_eq!(t.cols(), 2);
    for i in 0..2 {
        for j in 0..3 {
            assert_eq!(t.get(j, i), m.get(i, j));
        }
    }
}

#[test]
fn transpose_twice_restores() {
    let m = mat(2, 3, vec![7, -2, 0, 4, 5, -6]);
    let tt = m.transpose().transpose();
    assert_eq!(tt.rows(), 2);
    assert_eq!(tt.cols(), 3);
    for i in 0..2 {
        for j in 0..3 {
            assert_eq!(tt.get(i, j), m.get(i, j));
        }
    }
}

#[test]
fn identity_of_square_has_unit_diagonal() {
    let m = mat(3, 3, vec![5, 5, 5, 5, 5, 5, 5, 5, 5]);
    let e = m.identity();
    assert_eq!(e.rows(), 3);
    assert_eq!(e.cols(), 3);
    for i in 0..3 {
        for j in 0..3 {
            assert_eq!(e.get(i, j), if i == j { 1 } else { 0 });
        }
    }
}

#[test]
fn identity_of_non_square_follows_flat_rule() {
    // the unit entries land at every flat offset divisible by rows + 1
    let m = Matrix::new(2, 4);
    let e = m.identity();
    assert_eq!(e.rows(), 2);
    assert_eq!(e.cols(), 4);
    let mut flat = Vec::new();
    for i in 0..2 {
        for j in 0..4 {
            flat.push(e.get(i, j));
        }
    }
    assert_eq!(flat, vec![1, 0, 0, 1, 0, 0, 1, 0]);
}
