//! The mathematical model of a matrix.
//!
//! [`MatView`] is the ghost image of an executable matrix: a row count, a
//! column count, and the flat row-major sequence of its elements.  The spec
//! functions here describe every operation of the library as a value-to-value
//! transformation on such views; the executable methods promise in their
//! `ensures` that they return exactly these values.
//!
//! Element arithmetic is the wrapping arithmetic of `i64`, so the
//! transformations are total: `wadd`, `wsub`, `wmul` and `wdiv` pin down the
//! result for every pair of operands.

use vstd::arithmetic::div_mod::{
    lemma_fundamental_div_mod, lemma_fundamental_div_mod_converse,
    lemma_fundamental_div_mod_converse_mod, lemma_mod_add_multiples_vanish,
    lemma_mod_division_less_than_divisor, lemma_mod_multiples_basic, lemma_small_mod,
};
use vstd::prelude::*;

verus! {

/// `i64` addition that wraps around on overflow.
pub open spec fn wadd(x: i64, y: i64) -> i64 {
    vstd::wrapping::i64_specs::wrapping_add(x, y)
}

/// `i64` subtraction that wraps around on overflow.
pub open spec fn wsub(x: i64, y: i64) -> i64 {
    vstd::wrapping::i64_specs::wrapping_sub(x, y)
}

/// `i64` multiplication that wraps around on overflow.
pub open spec fn wmul(x: i64, y: i64) -> i64 {
    vstd::wrapping::i64_specs::wrapping_mul(x, y)
}

/// Truncating integer division, written over `int` in the same shape the
/// executable `checked_div` is specified with.
pub open spec fn trunc_div(x: int, d: int) -> int {
    if x == 0 {
        0
    } else if x > 0 && d > 0 {
        x / d
    } else if x < 0 && d < 0 {
        (x * -1) / (d * -1)
    } else if x < 0 {
        ((x * -1) / d) * -1
    } else {
        (x / (d * -1)) * -1
    }
}

/// `i64` division that truncates toward zero and wraps around on overflow.
/// Division by zero is left at an arbitrary fixed value; the executable
/// operations never divide by zero.
pub open spec fn wdiv(x: i64, y: i64) -> i64 {
    if y == 0 {
        0
    } else if x == i64::MIN && y == -1 {
        i64::MIN
    } else {
        trunc_div(x as int, y as int) as i64
    }
}

/// The ghost image of a matrix: its shape and its flat row-major elements.
#[verifier::ext_equal]
pub ghost struct MatView {
    pub rows: int,
    pub cols: int,
    pub data: Seq<i64>,
}

impl MatView {
    /// Well-formedness: the backing sequence holds exactly `rows * cols`
    /// elements.
    pub open spec fn wf(self) -> bool {
        &&& self.rows >= 0
        &&& self.cols >= 0
        &&& self.data.len() == self.rows * self.cols
    }

    /// The element at `(i, j)`, read at its row-major offset.
    pub open spec fn idx(self, i: int, j: int) -> i64 {
        self.data[i * self.cols + j]
    }

    /// Whether `(i, j)` addresses a cell of this matrix.
    pub open spec fn valid_pos(self, i: int, j: int) -> bool {
        0 <= i < self.rows && 0 <= j < self.cols
    }

    /// Whether the matrix is square.
    pub open spec fn is_square(self) -> bool {
        self.rows == self.cols
    }
}

/// The all-zero matrix of the given shape.
pub open spec fn zero_mat(rows: int, cols: int) -> MatView {
    MatView { rows, cols, data: Seq::new((rows * cols) as nat, |k: int| 0i64) }
}

/// A matrix wrapped around a flat sequence.
pub open spec fn mat_of(rows: int, cols: int, values: Seq<i64>) -> MatView {
    MatView { rows, cols, data: values }
}

/// The transpose: shape swapped, element `(i, j)` taken from `(j, i)`.
pub open spec fn transpose_of(m: MatView) -> MatView {
    MatView {
        rows: m.cols,
        cols: m.rows,
        data: Seq::new((m.cols * m.rows) as nat, |k: int| m.idx(k % m.rows, k / m.rows)),
    }
}

/// The matrix of `m`'s shape with 1 at every flat offset that is a multiple
/// of `m.rows + 1` and 0 elsewhere.  For a square matrix these offsets are
/// exactly the main diagonal; for a non-square shape the placement is the
/// same flat-offset rule and carries no further meaning.
pub open spec fn identity_of(m: MatView) -> MatView {
    MatView {
        rows: m.rows,
        cols: m.cols,
        data: Seq::new(
            (m.rows * m.cols) as nat,
            |k: int| if k % (m.rows + 1) == 0 { 1i64 } else { 0i64 },
        ),
    }
}

/// Element-wise wrapping sum of two same-shaped matrices.
pub open spec fn add_of(a: MatView, b: MatView) -> MatView {
    MatView {
        rows: a.rows,
        cols: a.cols,
        data: Seq::new(a.data.len(), |k: int| wadd(a.data[k], b.data[k])),
    }
}

/// Element-wise wrapping difference of two same-shaped matrices.
pub open spec fn sub_of(a: MatView, b: MatView) -> MatView {
    MatView {
        rows: a.rows,
        cols: a.cols,
        data: Seq::new(a.data.len(), |k: int| wsub(a.data[k], b.data[k])),
    }
}

/// Every element multiplied by the scalar `s`, wrapping.
pub open spec fn scale_of(m: MatView, s: i64) -> MatView {
    MatView { rows: m.rows, cols: m.cols, data: Seq::new(m.data.len(), |k: int| wmul(m.data[k], s)) }
}

/// Every element divided by the scalar `s`, truncating toward zero.
pub open spec fn scale_div_of(m: MatView, s: i64) -> MatView {
    MatView { rows: m.rows, cols: m.cols, data: Seq::new(m.data.len(), |k: int| wdiv(m.data[k], s)) }
}

/// The running wrapping sum of the first `n` products of row `i` of `a`
/// against column `j` of `b`, accumulated in increasing index order.
pub open spec fn dot(a: MatView, b: MatView, i: int, j: int, n: int) -> i64
    decreases n,
{
    if n <= 0 {
        0i64
    } else {
        wadd(dot(a, b, i, j, n - 1), wmul(a.idx(i, n - 1), b.idx(n - 1, j)))
    }
}

/// The matrix product: shape `(a.rows, b.cols)`, cell `(i, j)` the dot
/// product of row `i` of `a` with column `j` of `b` over `a.cols` terms.
pub open spec fn mul_of(a: MatView, b: MatView) -> MatView {
    MatView {
        rows: a.rows,
        cols: b.cols,
        data: Seq::new(
            (a.rows * b.cols) as nat,
            |k: int| dot(a, b, k / b.cols, k % b.cols, a.cols),
        ),
    }
}

/// The horizontal join: row `i` of the result is row `i` of `a` followed by
/// row `i` of `b`.  Only the first `a.rows` rows of `b` take part.
pub open spec fn hjoin_of(a: MatView, b: MatView) -> MatView {
    MatView {
        rows: a.rows,
        cols: a.cols + b.cols,
        data: Seq::new(
            (a.rows * (a.cols + b.cols)) as nat,
            |k: int|
                {
                    let i = k / (a.cols + b.cols);
                    let j = k % (a.cols + b.cols);
                    if j < a.cols {
                        a.idx(i, j)
                    } else {
                        b.idx(i, j - a.cols)
                    }
                },
        ),
    }
}

/// The main diagonal of `m`, in row order.
pub open spec fn diag_of(m: MatView) -> Seq<i64> {
    Seq::new(m.rows as nat, |i: int| m.idx(i, i))
}

/// The strictly-above-diagonal entries of row `i`: columns `i + 1` onward.
pub open spec fn above_row(m: MatView, i: int) -> Seq<i64> {
    Seq::new((m.cols - i - 1) as nat, |t: int| m.idx(i, i + 1 + t))
}

/// The strictly-above-diagonal entries of the first `r` rows, row-major.
pub open spec fn above_upto(m: MatView, r: int) -> Seq<i64>
    decreases r,
{
    if r <= 0 {
        Seq::empty()
    } else {
        above_upto(m, r - 1) + above_row(m, r - 1)
    }
}

/// All strictly-above-diagonal entries, in row-major traversal order.
pub open spec fn above_of(m: MatView) -> Seq<i64> {
    above_upto(m, m.rows)
}

/// The strictly-below-diagonal entries of row `i`: columns `0` up to `i`.
pub open spec fn below_row(m: MatView, i: int) -> Seq<i64> {
    Seq::new(i as nat, |t: int| m.idx(i, t))
}

/// The strictly-below-diagonal entries of the first `r` rows, row-major.
pub open spec fn below_upto(m: MatView, r: int) -> Seq<i64>
    decreases r,
{
    if r <= 0 {
        Seq::empty()
    } else {
        below_upto(m, r - 1) + below_row(m, r - 1)
    }
}

/// All strictly-below-diagonal entries, in row-major traversal order.
pub open spec fn below_of(m: MatView) -> Seq<i64> {
    below_upto(m, m.rows)
}

/// A flat offset formed from an in-range pair lies inside the buffer.
pub proof fn lemma_flat_index_bounds(i: int, j: int, r: int, c: int)
    requires
        0 <= i < r,
        0 <= j < c,
    ensures
        0 <= i * c + j,
        i * c + j < r * c,
{
    assert(0 <= i * c + j) by (nonlinear_arith)
        requires
            0 <= i,
            0 <= j,
            0 < c,
    ;
    assert(i * c + j < r * c) by (nonlinear_arith)
        requires
            0 <= i < r,
            0 <= j < c,
    ;
}

/// Dividing a flat offset by the column count recovers the row and column
/// it was formed from.
pub proof fn lemma_flat_index(i: int, j: int, c: int)
    requires
        0 <= i,
        0 <= j < c,
    ensures
        (i * c + j) / c == i,
        (i * c + j) % c == j,
{
    lemma_fundamental_div_mod_converse(i * c + j, c, i, j);
}

/// Any offset inside an `r * c` buffer splits into an in-range row and
/// column.
pub proof fn lemma_flat_split(k: int, r: int, c: int)
    requires
        0 < c,
        0 <= k < r * c,
    ensures
        0 <= k / c < r,
        0 <= k % c < c,
        k == (k / c) * c + (k % c),
{
    lemma_fundamental_div_mod(k, c);
    lemma_mod_division_less_than_divisor(k, c);
    vstd::arithmetic::div_mod::lemma_div_pos_is_pos(k, c);
    vstd::arithmetic::mul::lemma_mul_is_commutative(c, k / c);
    let q = k / c;
    let rem = k % c;
    assert(q < r) by (nonlinear_arith)
        requires
            0 < c,
            0 <= rem < c,
            k == c * q + rem,
            k < r * c,
            0 <= q,
    ;
}

/// `signed_crop` is the identity on values already in `i64` range.
pub proof fn lemma_signed_crop_id(x: int)
    requires
        i64::MIN <= x <= i64::MAX,
    ensures
        vstd::wrapping::i64_specs::signed_crop(x) == x,
{
    let range: int = 0x1_0000_0000_0000_0000;
    if 0 <= x {
        lemma_small_mod(x as nat, range as nat);
    } else {
        lemma_mod_add_multiples_vanish(x, range);
        lemma_small_mod((x + range) as nat, range as nat);
    }
}

/// Multiplying by 1 or 0 under wrapping multiplication is exact.
pub proof fn lemma_wmul_basics(x: i64)
    ensures
        wmul(x, 1) == x,
        wmul(1, x) == x,
        wmul(x, 0) == 0i64,
        wmul(0, x) == 0i64,
{
    lemma_signed_crop_id(x as int);
    lemma_signed_crop_id(0);
}

/// Adding 0 under wrapping addition is exact.
pub proof fn lemma_wadd_zero(x: i64)
    ensures
        wadd(x, 0) == x,
        wadd(0, x) == x,
{
}

/// On a square `n`-by-`n` shape, the flat offsets that are multiples of
/// `n + 1` are exactly the diagonal cells.
pub proof fn lemma_diag_flat(n: int, i: int, j: int)
    requires
        0 <= i < n,
        0 <= j < n,
    ensures
        ((i * n + j) % (n + 1) == 0) <==> (i == j),
{
    if i == j {
        assert(i * n + j == i * (n + 1)) by (nonlinear_arith)
            requires
                i == j,
        ;
        lemma_mod_multiples_basic(i, n + 1);
    } else if i < j {
        assert(i * n + j == i * (n + 1) + (j - i)) by (nonlinear_arith);
        lemma_fundamental_div_mod_converse_mod(i * n + j, n + 1, i, j - i);
    } else {
        assert(i * n + j == (i - 1) * (n + 1) + (n + 1 + j - i)) by (nonlinear_arith);
        lemma_fundamental_div_mod_converse_mod(i * n + j, n + 1, i - 1, n + 1 + j - i);
    }
}

} // verus!
