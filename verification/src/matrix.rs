//! The executable matrix type and its operations.

use crate::model::{
    above_of, above_row, above_upto, add_of, below_of, below_row, below_upto, diag_of, dot,
    hjoin_of, identity_of, lemma_flat_index, lemma_flat_index_bounds, mat_of, mul_of,
    scale_div_of, scale_of, sub_of, transpose_of, wadd, wdiv, wmul, wsub, zero_mat, MatView,
};
use vstd::arithmetic::div_mod::{lemma_fundamental_div_mod, lemma_fundamental_div_mod_converse_mod};
use vstd::prelude::*;

verus! {

/// The ways an operation can reject its operands.  Every one of them is a
/// shape violation; none is recoverable into a partial result.
#[derive(Clone, Copy, Debug, PartialEq, Eq)]
pub enum MatrixError {
    /// A flat vector's length does not equal `rows * cols`.
    LengthMismatch,
    /// A diagonal query was made on a non-square matrix.
    NotSquare,
    /// Element-wise arithmetic was asked of differently shaped operands.
    ShapeMismatch,
    /// A row-validated join was asked of operands with different row counts.
    RowCountMismatch,
    /// A column-validated join was asked of operands with different column
    /// counts.
    ColCountMismatch,
    /// A product was asked where the left column count does not equal the
    /// right row count.
    InnerDimMismatch,
    /// The operation is declared but deliberately not provided.
    Unsupported,
}

/// A dense matrix: `rows * cols` elements of type `i64`, stored flat in
/// row-major order.  The element at `(row, col)` lives at offset
/// `row * cols + col`.
#[derive(Clone, Debug)]
pub struct Matrix {
    rows: usize,
    cols: usize,
    data: Vec<i64>,
}

impl View for Matrix {
    type V = MatView;

    closed spec fn view(&self) -> MatView {
        MatView { rows: self.rows as int, cols: self.cols as int, data: self.data@ }
    }
}

impl Matrix {
    /// Builds the all-zero matrix of the given shape.
    pub fn new(rows: usize, cols: usize) -> (r: Matrix)
        requires
            rows * cols <= usize::MAX,
        ensures
            r@ == zero_mat(rows as int, cols as int),
            r@.wf(),
            forall|i: int, j: int| r@.valid_pos(i, j) ==> r@.idx(i, j) == 0i64,
    {
        let n: usize = rows * cols;
        let data: Vec<i64> = vec![0i64; n];
        let r = Matrix { rows, cols, data };
        proof {
            assert(r@.data =~= zero_mat(rows as int, cols as int).data);
            assert forall|i: int, j: int| r@.valid_pos(i, j) implies r@.idx(i, j) == 0i64 by {
                lemma_flat_index_bounds(i, j, rows as int, cols as int);
            };
        }
        r
    }

    /// Wraps a flat vector as a matrix of the given shape.  Succeeds exactly
    /// when the vector holds `rows * cols` values; a mismatched length is
    /// reported as [`MatrixError::LengthMismatch`].
    pub fn from_vector(rows: usize, cols: usize, values: Vec<i64>) -> (r: Result<
        Matrix,
        MatrixError,
    >)
        ensures
            match r {
                Ok(m) => values@.len() == rows * cols && m@ == mat_of(
                    rows as int,
                    cols as int,
                    values@,
                ) && forall|i: int, j: int|
                    m@.valid_pos(i, j) ==> m@.idx(i, j) == values@[i * cols + j],
                Err(e) => values@.len() != rows * cols && e == MatrixError::LengthMismatch,
            },
    {
        let vlen: usize = values.len();
        match rows.checked_mul(cols) {
            Some(n) => {
                if n == vlen {
                    Ok(Matrix { rows, cols, data: values })
                } else {
                    Err(MatrixError::LengthMismatch)
                }
            },
            None => Err(MatrixError::LengthMismatch),
        }
    }

    /// The number of rows.
    pub fn rows(&self) -> (r: usize)
        ensures
            r == self@.rows,
    {
        self.rows
    }

    /// The number of columns.
    pub fn cols(&self) -> (r: usize)
        ensures
            r == self@.cols,
    {
        self.cols
    }

    /// Reads the element at `(row, col)`.
    pub fn get(&self, row: usize, col: usize) -> (r: i64)
        requires
            self@.wf(),
            row < self@.rows,
            col < self@.cols,
        ensures
            r == self@.idx(row as int, col as int),
    {
        proof {
            assert(self.data.len() <= usize::MAX);
            lemma_flat_index_bounds(row as int, col as int, self@.rows, self@.cols);
        }
        self.data[row * self.cols + col]
    }

    /// Overwrites the element at `(row, col)`, leaving the rest of the
    /// matrix as it was.
    pub fn set(&mut self, row: usize, col: usize, value: i64)
        requires
            old(self)@.wf(),
            row < old(self)@.rows,
            col < old(self)@.cols,
        ensures
            final(self)@ == (MatView {
                data: old(self)@.data.update(row as int * old(self)@.cols + col, value),
                ..old(self)@
            }),
            final(self)@.wf(),
    {
        proof {
            assert(self.data.len() <= usize::MAX);
            lemma_flat_index_bounds(row as int, col as int, self@.rows, self@.cols);
        }
        self.data[row * self.cols + col] = value;
    }

    /// Whether the matrix has as many rows as columns.
    pub fn is_squared(&self) -> (r: bool)
        ensures
            r == self@.is_square(),
    {
        self.cols == self.rows
    }

    /// Builds the transpose: a `(cols, rows)` matrix whose element `(i, j)`
    /// is this matrix's element `(j, i)`.
    pub fn transpose(&self) -> (r: Matrix)
        requires
            self@.wf(),
        ensures
            r@ == transpose_of(self@),
            r@.wf(),
    {
        let mut data: Vec<i64> = Vec::new();
        let mut i: usize = 0;
        while i < self.cols
            invariant
                self@.wf(),
                i <= self@.cols,
                data@.len() == i * self@.rows,
                forall|k: int|
                    0 <= k < data@.len() ==> data@[k] == transpose_of(self@).data[k],
            decreases self@.cols - i,
        {
            let mut j: usize = 0;
            while j < self.rows
                invariant
                    self@.wf(),
                    i < self@.cols,
                    j <= self@.rows,
                    data@.len() == i * self@.rows + j,
                    forall|k: int|
                        0 <= k < data@.len() ==> data@[k] == transpose_of(self@).data[k],
                decreases self@.rows - j,
            {
                let v = self.get(j, i);
                data.push(v);
                proof {
                    lemma_flat_index_bounds(i as int, j as int, self@.cols, self@.rows);
                    lemma_flat_index(i as int, j as int, self@.rows);
                }
                j += 1;
            }
            proof {
                assert((i as int + 1) * self@.rows == i as int * self@.rows + self@.rows)
                    by (nonlinear_arith);
            }
            i += 1;
        }
        let r = Matrix { rows: self.cols, cols: self.rows, data };
        proof {
            vstd::arithmetic::mul::lemma_mul_is_commutative(self@.cols, self@.rows);
            assert(r@.data =~= transpose_of(self@).data);
            assert(r@ =~= transpose_of(self@));
        }
        r
    }

    /// Builds the matrix of this matrix's shape with 1 at every flat offset
    /// that is a multiple of `rows + 1` and 0 elsewhere.  On a square matrix
    /// those offsets are exactly the main diagonal, so the result is the
    /// identity; on a non-square shape the rule is applied unchanged and the
    /// result is not a mathematical identity.
    pub fn identity(&self) -> (r: Matrix)
        requires
            self@.wf(),
        ensures
            r@ == identity_of(self@),
            r@.wf(),
    {
        let n: usize = self.data.len();
        let mut data: Vec<i64> = Vec::new();
        // distance walked since the last diagonal offset; it equals
        // `k % (rows + 1)` at every loop head
        let mut since: usize = 0;
        let mut k: usize = 0;
        while k < n
            invariant
                self@.wf(),
                n == self@.data.len(),
                k <= n,
                data@.len() == k,
                since <= self@.rows,
                since == k as int % (self@.rows + 1),
                forall|t: int|
                    0 <= t < data@.len() ==> data@[t] == identity_of(self@).data[t],
            decreases n - k,
        {
            if since == 0 {
                data.push(1i64);
            } else {
                data.push(0i64);
            }
            proof {
                let m = self@.rows + 1;
                lemma_fundamental_div_mod(k as int, m);
                let q = k as int / m;
                if since == self@.rows {
                    vstd::arithmetic::mul::lemma_mul_is_distributive_add(m, q, 1);
                    lemma_fundamental_div_mod_converse_mod(k as int + 1, m, q + 1, 0);
                } else {
                    lemma_fundamental_div_mod_converse_mod(k as int + 1, m, q, since as int + 1);
                }
            }
            if since == self.rows {
                since = 0;
            } else {
                since = since + 1;
            }
            k += 1;
        }
        let r = Matrix { rows: self.rows, cols: self.cols, data };
        proof {
            assert(r@.data =~= identity_of(self@).data);
            assert(r@ =~= identity_of(self@));
        }
        r
    }

    /// Element-wise wrapping sum.  Succeeds exactly when both operands have
    /// the same shape; anything else is reported as
    /// [`MatrixError::ShapeMismatch`].
    pub fn add(&self, other: &Matrix) -> (r: Result<Matrix, MatrixError>)
        requires
            self@.wf(),
            other@.wf(),
        ensures
            match r {
                Ok(m) => self@.rows == other@.rows && self@.cols == other@.cols && m@ == add_of(
                    self@,
                    other@,
                ) && m@.wf(),
                Err(e) => !(self@.rows == other@.rows && self@.cols == other@.cols) && e
                    == MatrixError::ShapeMismatch,
            },
    {
        if self.rows != other.rows || self.cols != other.cols {
            return Err(MatrixError::ShapeMismatch);
        }
        let n: usize = self.data.len();
        let mut data: Vec<i64> = Vec::new();
        let mut k: usize = 0;
        while k < n
            invariant
                self@.wf(),
                other@.wf(),
                self@.rows == other@.rows,
                self@.cols == other@.cols,
                n == self@.data.len(),
                n == other@.data.len(),
                k <= n,
                data@.len() == k,
                forall|t: int|
                    0 <= t < data@.len() ==> data@[t] == wadd(self@.data[t], other@.data[t]),
            decreases n - k,
        {
            let v = self.data[k].wrapping_add(other.data[k]);
            data.push(v);
            k += 1;
        }
        let r = Matrix { rows: self.rows, cols: self.cols, data };
        proof {
            assert(r@.data =~= add_of(self@, other@).data);
            assert(r@ =~= add_of(self@, other@));
        }
        Ok(r)
    }

    /// Element-wise wrapping difference.  Succeeds exactly when both
    /// operands have the same shape; anything else is reported as
    /// [`MatrixError::ShapeMismatch`].
    pub fn sub(&self, other: &Matrix) -> (r: Result<Matrix, MatrixError>)
        requires
            self@.wf(),
            other@.wf(),
        ensures
            match r {
                Ok(m) => self@.rows == other@.rows && self@.cols == other@.cols && m@ == sub_of(
                    self@,
                    other@,
                ) && m@.wf(),
                Err(e) => !(self@.rows == other@.rows && self@.cols == other@.cols) && e
                    == MatrixError::ShapeMismatch,
            },
    {
        if self.rows != other.rows || self.cols != other.cols {
            return Err(MatrixError::ShapeMismatch);
        }
        let n: usize = self.data.len();
        let mut data: Vec<i64> = Vec::new();
        let mut k: usize = 0;
        while k < n
            invariant
                self@.wf(),
                other@.wf(),
                self@.rows == other@.rows,
                self@.cols == other@.cols,
                n == self@.data.len(),
                n == other@.data.len(),
                k <= n,
                data@.len() == k,
                forall|t: int|
                    0 <= t < data@.len() ==> data@[t] == wsub(self@.data[t], other@.data[t]),
            decreases n - k,
        {
            let v = self.data[k].wrapping_sub(other.data[k]);
            data.push(v);
            k += 1;
        }
        let r = Matrix { rows: self.rows, cols: self.cols, data };
        proof {
            assert(r@.data =~= sub_of(self@, other@).data);
            assert(r@ =~= sub_of(self@, other@));
        }
        Ok(r)
    }

    /// Multiplies every element by the scalar `s`, wrapping on overflow.
    /// Consumes the matrix and returns the scaled value.
    pub fn scale(self, s: i64) -> (r: Matrix)
        requires
            self@.wf(),
        ensures
            r@ == scale_of(self@, s),
            r@.wf(),
    {
        let n: usize = self.data.len();
        let mut data: Vec<i64> = Vec::new();
        let mut k: usize = 0;
        while k < n
            invariant
                self@.wf(),
                n == self@.data.len(),
                k <= n,
                data@.len() == k,
                forall|t: int| 0 <= t < data@.len() ==> data@[t] == wmul(self@.data[t], s),
            decreases n - k,
        {
            let v = self.data[k].wrapping_mul(s);
            data.push(v);
            k += 1;
        }
        let r = Matrix { rows: self.rows, cols: self.cols, data };
        proof {
            assert(r@.data =~= scale_of(self@, s).data);
            assert(r@ =~= scale_of(self@, s));
        }
        r
    }

    /// Divides every element by the non-zero scalar `s`, truncating toward
    /// zero; the one overflowing quotient, `i64::MIN / -1`, wraps back to
    /// `i64::MIN`.  Consumes the matrix and returns the scaled value.
    pub fn scale_div(self, s: i64) -> (r: Matrix)
        requires
            self@.wf(),
            s != 0,
        ensures
            r@ == scale_div_of(self@, s),
            r@.wf(),
    {
        let n: usize = self.data.len();
        let mut data: Vec<i64> = Vec::new();
        let mut k: usize = 0;
        while k < n
            invariant
                self@.wf(),
                s != 0,
                n == self@.data.len(),
                k <= n,
                data@.len() == k,
                forall|t: int| 0 <= t < data@.len() ==> data@[t] == wdiv(self@.data[t], s),
            decreases n - k,
        {
            let v = wrapping_div_i64(self.data[k], s);
            data.push(v);
            k += 1;
        }
        let r = Matrix { rows: self.rows, cols: self.cols, data };
        proof {
            assert(r@.data =~= scale_div_of(self@, s).data);
            assert(r@ =~= scale_div_of(self@, s));
        }
        r
    }

    /// The matrix product.  Succeeds exactly when this matrix's column count
    /// equals `other`'s row count; anything else is reported as
    /// [`MatrixError::InnerDimMismatch`].  Cell `(i, j)` of the result is the
    /// wrapping running sum, in increasing index order, of the products of
    /// row `i` of `self` against column `j` of `other`.
    pub fn mul(&self, other: &Matrix) -> (r: Result<Matrix, MatrixError>)
        requires
            self@.wf(),
            other@.wf(),
            self@.rows * other@.cols <= usize::MAX,
        ensures
            match r {
                Ok(m) => self@.cols == other@.rows && m@ == mul_of(self@, other@) && m@.wf(),
                Err(e) => self@.cols != other@.rows && e == MatrixError::InnerDimMismatch,
            },
    {
        if self.cols != other.rows {
            return Err(MatrixError::InnerDimMismatch);
        }
        let mut data: Vec<i64> = Vec::new();
        let mut i: usize = 0;
        while i < self.rows
            invariant
                self@.wf(),
                other@.wf(),
                self@.cols == other@.rows,
                i <= self@.rows,
                data@.len() == i * other@.cols,
                forall|k: int| 0 <= k < data@.len() ==> data@[k] == mul_of(self@, other@).data[k],
            decreases self@.rows - i,
        {
            let mut j: usize = 0;
            while j < other.cols
                invariant
                    self@.wf(),
                    other@.wf(),
                    self@.cols == other@.rows,
                    i < self@.rows,
                    j <= other@.cols,
                    data@.len() == i * other@.cols + j,
                    forall|k: int|
                        0 <= k < data@.len() ==> data@[k] == mul_of(self@, other@).data[k],
                decreases other@.cols - j,
            {
                let mut acc: i64 = 0;
                let mut t: usize = 0;
                while t < self.cols
                    invariant
                        self@.wf(),
                        other@.wf(),
                        self@.cols == other@.rows,
                        i < self@.rows,
                        j < other@.cols,
                        t <= self@.cols,
                        acc == dot(self@, other@, i as int, j as int, t as int),
                    decreases self@.cols - t,
                {
                    let v = self.get(i, t).wrapping_mul(other.get(t, j));
                    acc = acc.wrapping_add(v);
                    t += 1;
                }
                data.push(acc);
                proof {
                    lemma_flat_index_bounds(i as int, j as int, self@.rows, other@.cols);
                    lemma_flat_index(i as int, j as int, other@.cols);
                }
                j += 1;
            }
            proof {
                assert((i as int + 1) * other@.cols == i as int * other@.cols + other@.cols)
                    by (nonlinear_arith);
            }
            i += 1;
        }
        let r = Matrix { rows: self.rows, cols: other.cols, data };
        proof {
            assert(r@.data =~= mul_of(self@, other@).data);
            assert(r@ =~= mul_of(self@, other@));
        }
        Ok(r)
    }

    /// Joins the two matrices side by side after checking that their row
    /// counts match: row `i` of the result is row `i` of `self` followed by
    /// row `i` of `other`, and mismatched row counts are reported as
    /// [`MatrixError::RowCountMismatch`].
    pub fn concat_rows(&self, other: &Matrix) -> (r: Result<Matrix, MatrixError>)
        requires
            self@.wf(),
            other@.wf(),
            self@.cols + other@.cols <= usize::MAX,
        ensures
            match r {
                Ok(m) => self@.rows == other@.rows && m@ == hjoin_of(self@, other@) && m@.wf(),
                Err(e) => self@.rows != other@.rows && e == MatrixError::RowCountMismatch,
            },
    {
        if self.rows != other.rows {
            return Err(MatrixError::RowCountMismatch);
        }
        Ok(self.hjoin(other))
    }

    /// Joins the two matrices side by side, exactly as [`Matrix::concat_rows`]
    /// does, but validating the column counts instead: row `i` of the result
    /// is row `i` of `self` followed by row `i` of `other`, and mismatched
    /// column counts are reported as [`MatrixError::ColCountMismatch`].
    /// Neither join stacks rows vertically; the two differ only in which
    /// dimension they check.  `other` must have at least as many rows as
    /// `self`; its rows beyond `self`'s row count do not take part.
    pub fn concat_cols(&self, other: &Matrix) -> (r: Result<Matrix, MatrixError>)
        requires
            self@.wf(),
            other@.wf(),
            self@.rows <= other@.rows,
            self@.cols + other@.cols <= usize::MAX,
        ensures
            match r {
                Ok(m) => self@.cols == other@.cols && m@ == hjoin_of(self@, other@) && m@.wf(),
                Err(e) => self@.cols != other@.cols && e == MatrixError::ColCountMismatch,
            },
    {
        if self.cols != other.cols {
            return Err(MatrixError::ColCountMismatch);
        }
        Ok(self.hjoin(other))
    }

    /// The shared body of the two joins: rows of `self` extended by the
    /// corresponding rows of `other`.
    fn hjoin(&self, other: &Matrix) -> (r: Matrix)
        requires
            self@.wf(),
            other@.wf(),
            self@.rows <= other@.rows,
            self@.cols + other@.cols <= usize::MAX,
        ensures
            r@ == hjoin_of(self@, other@),
            r@.wf(),
    {
        let cols: usize = self.cols + other.cols;
        let mut data: Vec<i64> = Vec::new();
        let mut i: usize = 0;
        while i < self.rows
            invariant
                self@.wf(),
                other@.wf(),
                self@.rows <= other@.rows,
                cols == self@.cols + other@.cols,
                i <= self@.rows,
                data@.len() == i * (self@.cols + other@.cols),
                forall|k: int|
                    0 <= k < data@.len() ==> data@[k] == hjoin_of(self@, other@).data[k],
            decreases self@.rows - i,
        {
            let mut j: usize = 0;
            while j < self.cols
                invariant
                    self@.wf(),
                    other@.wf(),
                    self@.rows <= other@.rows,
                    cols == self@.cols + other@.cols,
                    i < self@.rows,
                    j <= self@.cols,
                    data@.len() == i * (self@.cols + other@.cols) + j,
                    forall|k: int|
                        0 <= k < data@.len() ==> data@[k] == hjoin_of(self@, other@).data[k],
                decreases self@.cols - j,
            {
                let v = self.get(i, j);
                data.push(v);
                proof {
                    lemma_flat_index_bounds(i as int, j as int, self@.rows, cols as int);
                    lemma_flat_index(i as int, j as int, cols as int);
                }
                j += 1;
            }
            let mut j: usize = 0;
            while j < other.cols
                invariant
                    self@.wf(),
                    other@.wf(),
                    self@.rows <= other@.rows,
                    cols == self@.cols + other@.cols,
                    i < self@.rows,
                    j <= other@.cols,
                    data@.len() == i * (self@.cols + other@.cols) + self@.cols + j,
                    forall|k: int|
                        0 <= k < data@.len() ==> data@[k] == hjoin_of(self@, other@).data[k],
                decreases other@.cols - j,
            {
                let v = other.get(i, j);
                data.push(v);
                proof {
                    lemma_flat_index_bounds(i as int, self@.cols + j, self@.rows, cols as int);
                    lemma_flat_index(i as int, self@.cols + j, cols as int);
                }
                j += 1;
            }
            proof {
                assert((i as int + 1) * (self@.cols + other@.cols) == i as int * (self@.cols
                    + other@.cols) + (self@.cols + other@.cols)) by (nonlinear_arith);
            }
            i += 1;
        }
        let r = Matrix { rows: self.rows, cols, data };
        proof {
            assert(r@.data =~= hjoin_of(self@, other@).data);
            assert(r@ =~= hjoin_of(self@, other@));
        }
        r
    }

    /// Splits a square matrix into its main diagonal, the entries strictly
    /// above it, and the entries strictly below it, each in row-major
    /// traversal order.  A non-square matrix is reported as
    /// [`MatrixError::NotSquare`].
    pub fn main_diagonal(&self) -> (r: Result<(Vec<i64>, Vec<i64>, Vec<i64>), MatrixError>)
        requires
            self@.wf(),
        ensures
            match r {
                Ok(t) => self@.is_square() && t.0@ == diag_of(self@) && t.1@ == above_of(self@)
                    && t.2@ == below_of(self@),
                Err(e) => !self@.is_square() && e == MatrixError::NotSquare,
            },
    {
        if !self.is_squared() {
            return Err(MatrixError::NotSquare);
        }
        let n: usize = self.rows;

        let mut diag: Vec<i64> = Vec::new();
        let mut i: usize = 0;
        while i < n
            invariant
                self@.wf(),
                self@.is_square(),
                n == self@.rows,
                i <= n,
                diag@.len() == i,
                forall|t: int| 0 <= t < i ==> diag@[t] == self@.idx(t, t),
            decreases n - i,
        {
            let v = self.get(i, i);
            diag.push(v);
            i += 1;
        }
        proof {
            assert(diag@ =~= diag_of(self@));
        }

        let mut above: Vec<i64> = Vec::new();
        let mut i: usize = 0;
        while i < n
            invariant
                self@.wf(),
                self@.is_square(),
                n == self@.rows,
                i <= n,
                above@ == above_upto(self@, i as int),
            decreases n - i,
        {
            let mut j: usize = i + 1;
            while j < n
                invariant
                    self@.wf(),
                    self@.is_square(),
                    n == self@.rows,
                    i < n,
                    i + 1 <= j <= n,
                    above@ == above_upto(self@, i as int) + above_row(self@, i as int).take(
                        j - i - 1,
                    ),
                decreases n - j,
            {
                let v = self.get(i, j);
                above.push(v);
                proof {
                    let row = above_row(self@, i as int);
                    assert(row.take(j - i as int) =~= row.take(j - i - 1).push(
                        self@.idx(i as int, j as int),
                    ));
                    assert(above@ =~= above_upto(self@, i as int) + row.take(j - i as int));
                }
                j += 1;
            }
            proof {
                assert(above_row(self@, i as int).take(n - i - 1) =~= above_row(
                    self@,
                    i as int,
                ));
                assert(above@ =~= above_upto(self@, i as int + 1));
            }
            i += 1;
        }

        let mut below: Vec<i64> = Vec::new();
        let mut i: usize = 0;
        while i < n
            invariant
                self@.wf(),
                self@.is_square(),
                n == self@.rows,
                i <= n,
                below@ == below_upto(self@, i as int),
            decreases n - i,
        {
            let mut j: usize = 0;
            while j < i
                invariant
                    self@.wf(),
                    self@.is_square(),
                    n == self@.rows,
                    i < n,
                    j <= i,
                    below@ == below_upto(self@, i as int) + below_row(self@, i as int).take(
                        j as int,
                    ),
                decreases i - j,
            {
                let v = self.get(i, j);
                below.push(v);
                proof {
                    let row = below_row(self@, i as int);
                    assert(row.take(j as int + 1) =~= row.take(j as int).push(
                        self@.idx(i as int, j as int),
                    ));
                    assert(below@ =~= below_upto(self@, i as int) + row.take(j as int + 1));
                }
                j += 1;
            }
            proof {
                assert(below_row(self@, i as int).take(i as int) =~= below_row(self@, i as int));
                assert(below@ =~= below_upto(self@, i as int + 1));
            }
            i += 1;
        }

        Ok((diag, above, below))
    }

    /// Whether the matrix is upper triangular: square, with every entry
    /// strictly below the main diagonal exactly zero.
    pub fn is_u_triangular(&self) -> (r: bool)
        requires
            self@.wf(),
        ensures
            r == (self@.is_square() && forall|i: int, j: int|
                0 <= j < i < self@.rows ==> self@.idx(i, j) == 0i64),
    {
        if !self.is_squared() {
            return false;
        }
        let n: usize = self.rows;
        let mut i: usize = 0;
        while i < n
            invariant
                self@.wf(),
                self@.is_square(),
                n == self@.rows,
                i <= n,
                forall|a: int, b: int| 0 <= b < a < i ==> self@.idx(a, b) == 0i64,
            decreases n - i,
        {
            let mut j: usize = 0;
            while j < i
                invariant
                    self@.wf(),
                    self@.is_square(),
                    n == self@.rows,
                    i < n,
                    j <= i,
                    forall|a: int, b: int| 0 <= b < a < i ==> self@.idx(a, b) == 0i64,
                    forall|b: int| 0 <= b < j ==> self@.idx(i as int, b) == 0i64,
                decreases i - j,
            {
                if self.get(i, j) != 0 {
                    return false;
                }
                j += 1;
            }
            i += 1;
        }
        true
    }

    /// Whether the matrix is lower triangular: square, with every entry
    /// strictly above the main diagonal exactly zero.
    pub fn is_l_triangular(&self) -> (r: bool)
        requires
            self@.wf(),
        ensures
            r == (self@.is_square() && forall|i: int, j: int|
                0 <= i < j < self@.rows ==> self@.idx(i, j) == 0i64),
    {
        if !self.is_squared() {
            return false;
        }
        let n: usize = self.rows;
        let mut i: usize = 0;
        while i < n
            invariant
                self@.wf(),
                self@.is_square(),
                n == self@.rows,
                i <= n,
                forall|a: int, b: int| 0 <= a < b < self@.rows && a < i ==> self@.idx(a, b)
                    == 0i64,
            decreases n - i,
        {
            let mut j: usize = i + 1;
            while j < n
                invariant
                    self@.wf(),
                    self@.is_square(),
                    n == self@.rows,
                    i < n,
                    i + 1 <= j <= n,
                    forall|a: int, b: int| 0 <= a < b < self@.rows && a < i ==> self@.idx(a, b)
                        == 0i64,
                    forall|b: int| i < b < j ==> self@.idx(i as int, b) == 0i64,
                decreases n - j,
            {
                if self.get(i, j) != 0 {
                    return false;
                }
                j += 1;
            }
            i += 1;
        }
        true
    }

    /// The determinant is deliberately not provided; asking for it always
    /// reports [`MatrixError::Unsupported`].
    pub fn determinant(&self) -> (r: Result<Matrix, MatrixError>)
        ensures
            r == Err::<Matrix, MatrixError>(MatrixError::Unsupported),
    {
        Err(MatrixError::Unsupported)
    }

    /// The LU decomposition is deliberately not provided; asking for it
    /// always reports [`MatrixError::Unsupported`].
    pub fn lu_decomposition(&self) -> (r: Result<Matrix, MatrixError>)
        ensures
            r == Err::<Matrix, MatrixError>(MatrixError::Unsupported),
    {
        Err(MatrixError::Unsupported)
    }
}

/// `i64` division that truncates toward zero and wraps on the one
/// overflowing quotient.
fn wrapping_div_i64(x: i64, y: i64) -> (r: i64)
    requires
        y != 0,
    ensures
        r == wdiv(x, y),
{
    let r = match x.checked_div(y) {
        Some(v) => v,
        None => i64::MIN,
    };
    proof {
        let xi = x as int;
        let d = y as int;
        if xi > 0 && d > 0 {
            // the quotient lies between 0 and x
            vstd::arithmetic::div_mod::lemma_div_pos_is_pos(xi, d);
            vstd::arithmetic::div_mod::lemma_div_nonincreasing(xi, d);
            assert(r == wdiv(x, y));
        } else if xi < 0 && d < 0 {
            // the quotient lies between 0 and -x, and overflows the i64
            // range only for x == i64::MIN and y == -1
            let p = xi * -1;
            let q = d * -1;
            vstd::arithmetic::div_mod::lemma_div_pos_is_pos(p, q);
            vstd::arithmetic::div_mod::lemma_div_nonincreasing(p, q);
            vstd::arithmetic::div_mod::lemma_div_basics(p);
            if q > 1 {
                vstd::arithmetic::div_mod::lemma_div_decreases(p, q);
            }
            assert(r == wdiv(x, y));
        } else if xi < 0 {
            // the quotient lies between x and 0
            let p = xi * -1;
            vstd::arithmetic::div_mod::lemma_div_pos_is_pos(p, d);
            vstd::arithmetic::div_mod::lemma_div_nonincreasing(p, d);
            assert(r == wdiv(x, y));
        } else if xi > 0 {
            // the quotient lies between -x and 0
            let q = d * -1;
            vstd::arithmetic::div_mod::lemma_div_pos_is_pos(xi, q);
            vstd::arithmetic::div_mod::lemma_div_nonincreasing(xi, q);
            assert(r == wdiv(x, y));
        }
    }
    r
}

} // verus!
