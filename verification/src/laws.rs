//! Algebraic laws of the matrix model, stated and proved once for all
//! matrices.
//!
//! Each law is phrased over [`MatView`] and the spec functions of
//! [`crate::model`], which are exactly what the executable operations promise
//! to return; a law about `transpose_of` therefore holds of every value that
//! [`crate::Matrix::transpose`] produces.

use crate::model::{
    above_of, above_row, above_upto, below_of, below_row, below_upto, diag_of, dot, identity_of,
    lemma_diag_flat, lemma_flat_index, lemma_flat_index_bounds, lemma_flat_split,
    lemma_wadd_zero, lemma_wmul_basics, mul_of, transpose_of, MatView,
};
use vstd::arithmetic::div_mod::lemma_fundamental_div_mod_converse;
use vstd::prelude::*;

verus! {

/// Transposing twice gives back the original matrix.
pub proof fn lemma_transpose_involution(v: MatView)
    requires
        v.wf(),
    ensures
        transpose_of(transpose_of(v)) == v,
{
    let t = transpose_of(v);
    let tt = transpose_of(t);
    assert forall|k: int| 0 <= k < v.data.len() implies tt.data[k] == v.data[k] by {
        if v.cols == 0 {
            assert(v.rows * v.cols == 0) by (nonlinear_arith)
                requires
                    v.cols == 0,
            ;
        } else {
            lemma_flat_split(k, v.rows, v.cols);
            let i0 = k / v.cols;
            let j0 = k % v.cols;
            lemma_flat_index_bounds(j0, i0, v.cols, v.rows);
            lemma_flat_index(j0, i0, v.rows);
        }
    };
    assert(tt.data =~= v.data);
    assert(tt =~= v);
}

/// The running product-sum of row `i` of a square matrix against column `j`
/// of its identity picks out the single element `(i, j)` once the sum has
/// passed index `j`, and is zero before that.
proof fn lemma_dot_identity(v: MatView, e: MatView, i: int, j: int, t: int)
    requires
        v.wf(),
        v.is_square(),
        e == identity_of(v),
        0 <= i < v.rows,
        0 <= j < v.rows,
        0 <= t <= v.rows,
    ensures
        dot(v, e, i, j, t) == if j < t {
            v.idx(i, j)
        } else {
            0i64
        },
    decreases t,
{
    if t > 0 {
        lemma_dot_identity(v, e, i, j, t - 1);
        lemma_flat_index_bounds(t - 1, j, v.rows, v.rows);
        lemma_diag_flat(v.rows, t - 1, j);
        lemma_wmul_basics(v.idx(i, t - 1));
        if t - 1 == j {
            lemma_wadd_zero(v.idx(i, j));
        } else {
            lemma_wadd_zero(dot(v, e, i, j, t - 1));
        }
    }
}

/// Multiplying a square matrix by its identity reproduces it exactly.
pub proof fn lemma_mul_identity(v: MatView)
    requires
        v.wf(),
        v.is_square(),
    ensures
        mul_of(v, identity_of(v)) == v,
{
    let e = identity_of(v);
    let p = mul_of(v, e);
    assert forall|k: int| 0 <= k < v.data.len() implies p.data[k] == v.data[k] by {
        if v.cols == 0 {
            assert(v.rows * v.cols == 0) by (nonlinear_arith)
                requires
                    v.cols == 0,
            ;
        } else {
            lemma_flat_split(k, v.rows, v.cols);
            let i0 = k / v.cols;
            let j0 = k % v.cols;
            lemma_dot_identity(v, e, i0, j0, v.rows);
        }
    };
    assert(p.data =~= v.data);
    assert(p =~= v);
}

/// Twice the number of strictly-above-diagonal entries in the first `r`
/// rows of a square matrix is `r * (2 * rows - r - 1)`.
proof fn lemma_above_upto_len(m: MatView, r: int)
    requires
        m.wf(),
        m.is_square(),
        0 <= r <= m.rows,
    ensures
        above_upto(m, r).len() * 2 == r * (2 * m.rows - r - 1),
    decreases r,
{
    if r > 0 {
        lemma_above_upto_len(m, r - 1);
        assert(above_row(m, r - 1).len() == m.rows - r);
        assert((r - 1) * (2 * m.rows - (r - 1) - 1) + 2 * (m.rows - r) == r * (2 * m.rows - r
            - 1)) by (nonlinear_arith);
    }
}

/// Twice the number of strictly-below-diagonal entries in the first `r`
/// rows of a square matrix is `r * (r - 1)`.
proof fn lemma_below_upto_len(m: MatView, r: int)
    requires
        m.wf(),
        m.is_square(),
        0 <= r <= m.rows,
    ensures
        below_upto(m, r).len() * 2 == r * (r - 1),
    decreases r,
{
    if r > 0 {
        lemma_below_upto_len(m, r - 1);
        assert(below_row(m, r - 1).len() == r - 1);
        assert((r - 1) * (r - 2) + 2 * (r - 1) == r * (r - 1)) by (nonlinear_arith);
    }
}

/// The diagonal split of a square `n`-by-`n` matrix partitions its cells:
/// the diagonal holds `n` entries, the strict halves hold
/// `n * (n - 1) / 2` entries each, and together they cover all `n * n`
/// cells.
pub proof fn lemma_diagonal_partition(m: MatView)
    requires
        m.wf(),
        m.is_square(),
    ensures
        diag_of(m).len() == m.rows,
        above_of(m).len() == (m.rows * (m.rows - 1)) / 2,
        below_of(m).len() == (m.rows * (m.rows - 1)) / 2,
        diag_of(m).len() + above_of(m).len() + below_of(m).len() == m.rows * m.rows,
{
    let n = m.rows;
    lemma_above_upto_len(m, n);
    lemma_below_upto_len(m, n);
    assert(n * (2 * n - n - 1) == n * (n - 1)) by (nonlinear_arith);
    lemma_fundamental_div_mod_converse(n * (n - 1), 2, above_of(m).len() as int, 0);
    lemma_fundamental_div_mod_converse(n * (n - 1), 2, below_of(m).len() as int, 0);
    assert(n + n * (n - 1) == n * n) by (nonlinear_arith);
}

} // verus!
