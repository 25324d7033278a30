use tinymatrix::Matrix;
use tinymatrix::MatrixError;

fn mat(rows: usize, cols: usize, values: Vec<i64>) -> Matrix {
    Matrix::from_vector(rows, cols, values).unwrap()
}

fn flat(m: &Matrix) -> Vec<i64> {
    let mut out = Vec::new();
    for i in 0..m.rows() {
        for j in 0..m.cols() {
            out.push(m.get(i, j));
        }
    }
    out
}

#[test]
fn mul_two_by_two_scenario() {
    let a = mat(2, 2, vec![1, 2, 3, 4]);
    let b = mat(2, 2, vec![5, 6, 7, 8]);
    let p = a.mul(&b).unwrap();
    assert_eq!(p.rows(), 2);
    assert_eq!(p.cols(), 2);
    assert_eq!(flat(&p), vec![19, 22, 43, 50]);
}

#[test]
fn mul_rectangular_shapes() {
    let a = mat(2, 3, vec![1, 2, 3, 4, 5, 6]);
    let b = mat(3, 1, vec![1, 0, -1]);
    let p = a.mul(&b).unwrap();
    assert_eq!(p.rows(), 2);
    assert_eq!(p.cols(), 1);
    assert_eq!(flat(&p), vec![-2, -2]);
}

#[test]
fn mul_rejects_mismatched_inner_dimension() {
    let a = mat(2, 3, vec![1, 2, 3, 4, 5, 6]);
    let b = mat(2, 2, vec![1, 2, 3, 4]);
    assert_eq!(a.mul(&b).unwrap_err(), MatrixError::InnerDimMismatch);
}

#[test]
fn mul_by_identity_reproduces_matrix() {
    let m = mat(3, 3, vec![2, -3, 5, 7, 0, -11, 13, 17, -19]);
    let e = m.identity();
    let p = m.mul(&e).unwrap();
    assert_eq!(flat(&p), flat(&m));
}

#[test]
fn add_is_element_wise() {
    let a = mat(2, 2, vec![1, 2, 3, 4]);
    let b = mat(2, 2, vec![10, 20, 30, 40]);
    let s = a.add(&b).unwrap();
    assert_eq!(flat(&s), vec![11, 22, 33, 44]);
}

#[test]
fn add_rejects_mismatched_shapes() {
    let a = mat(2, 2, vec![1, 2, 3, 4]);
    let b = mat(2, 3, vec![1, 2, 3, 4, 5, 6]);
    assert_eq!(a.add(&b).unwrap_err(), MatrixError::ShapeMismatch);
}

#[test]
fn add_wraps_on_overflow() {
    let a = mat(1, 1, vec![i64::MAX]);
    let b = mat(1, 1, vec![1]);
    let s = a.add(&b).unwrap();
    assert_eq!(s.get(0, 0), i64::MIN);
}

#[test]
fn sub_is_element_wise() {
    let a = mat(2, 2, vec![10, 20, 30, 40]);
    let b = mat(2, 2, vec![1, 2, 3, 4]);
    let d = a.sub(&b).unwrap();
    assert_eq!(flat(&d), vec![9, 18, 27, 36]);
}

#[test]
fn sub_rejects_mismatched_shapes() {
    let a = mat(1, 2, vec![1, 2]);
    let b = mat(2, 1, vec![1, 2]);
    assert_eq!(a.sub(&b).unwrap_err(), MatrixError::ShapeMismatch);
}

#[test]
fn scale_multiplies_every_element() {
    let m = mat(2, 2, vec![1, -2, 3, -4]);
    let s = m.scale(3);
    assert_eq!(flat(&s), vec![3, -6, 9, -12]);
}

#[test]
fn scale_div_truncates_toward_zero() {
    let m = mat(2, 2, vec![7, -7, 9, -9]);
    let d = m.scale_div(2);
    assert_eq!(flat(&d), vec![3, -3, 4, -4]);
}

#[test]
fn scale_div_wraps_only_overflowing_quotient() {
    let m = mat(1, 2, vec![i64::MIN, 42]);
    let d = m.scale_div(-1);
    assert_eq!(d.get(0, 0), i64::MIN);
    assert_eq!(d.get(0, 1), -42);
}
