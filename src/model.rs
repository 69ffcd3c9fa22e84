use vstd::prelude::*;

verus! {

/// The mathematical value of a matrix: its shape and its cells in row-major order.
pub struct MatrixModel<T> {
    pub rows: nat,
    pub cols: nat,
    pub cells: Seq<T>,
}

impl<T> MatrixModel<T> {
    /// The cells fill exactly `rows * cols` positions.
    pub open spec fn wf(self) -> bool {
        self.cells.len() == self.rows * self.cols
    }

    /// Whether `(i, j)` names a cell of this matrix.
    pub open spec fn in_bounds(self, i: int, j: int) -> bool {
        0 <= i < self.rows && 0 <= j < self.cols
    }

    /// The cell at row `i`, column `j`, stored at offset `i * cols + j`.
    pub open spec fn at(self, i: int, j: int) -> T {
        self.cells[i * self.cols + j]
    }
}

/// The pairs multiplied for cell `(i, j)` of `a * b`, by ascending inner index `k`:
/// `(a[i][k], b[k][j])`.
pub open spec fn products<T>(a: MatrixModel<T>, b: MatrixModel<T>, i: int, j: int) -> Seq<(T, T)> {
    Seq::new(a.cols, |k: int| (a.at(i, k), b.at(k, j)))
}

/// `r` is a value that folding `step(acc, x, y)` over `terms` from the left,
/// starting at `init`, can produce.
pub open spec fn accumulates<T, F: Fn(T, T, T) -> T>(
    step: F,
    init: T,
    terms: Seq<(T, T)>,
    r: T,
) -> bool
    decreases terms.len(),
{
    if terms.len() == 0 {
        r == init
    } else {
        exists|prev: T|
            accumulates(step, init, terms.drop_last(), prev) && #[trigger] call_ensures(
                step,
                (prev, terms.last().0, terms.last().1),
                r,
            )
    }
}

/// `m` is the product of `a` and `b` under `step`, with sums starting at `zero`:
/// shape `(a.rows, b.cols)`, and each cell the ascending fold of its products.
pub open spec fn is_product<T, F: Fn(T, T, T) -> T>(
    a: MatrixModel<T>,
    b: MatrixModel<T>,
    zero: T,
    step: F,
    m: MatrixModel<T>,
) -> bool {
    &&& m.wf()
    &&& m.rows == a.rows
    &&& m.cols == b.cols
    &&& forall|i: int, j: int|
        m.in_bounds(i, j) ==> accumulates(step, zero, products(a, b, i, j), #[trigger] m.at(i, j))
}

/// `m` is the `n` by `n` identity matrix built from `zero` and `one`.
pub open spec fn is_identity<T>(m: MatrixModel<T>, n: nat, zero: T, one: T) -> bool {
    &&& m.wf()
    &&& m.rows == n
    &&& m.cols == n
    &&& forall|i: int, j: int|
        m.in_bounds(i, j) ==> #[trigger] m.at(i, j) == if i == j {
            one
        } else {
            zero
        }
}

/// For `i < rows` and `j < cols`, the offset `i * cols + j` lies below `rows * cols`.
pub proof fn lemma_offset_in_range(i: int, j: int, rows: int, cols: int)
    requires
        0 <= i < rows,
        0 <= j < cols,
    ensures
        0 <= i * cols + j < rows * cols,
{
    assert(0 <= i * cols + j < rows * cols) by (nonlinear_arith)
        requires
            0 <= i < rows,
            0 <= j < cols,
    ;
}

/// Offsets of earlier rows lie before row `i`: `ii * cols + jj < i * cols`.
pub proof fn lemma_offset_before_row(ii: int, jj: int, i: int, cols: int)
    requires
        0 <= ii < i,
        0 <= jj < cols,
    ensures
        ii * cols + jj < i * cols,
{
    assert(ii * cols + jj < i * cols) by (nonlinear_arith)
        requires
            0 <= ii < i,
            0 <= jj < cols,
    ;
}

/// A fold over no terms yields its starting value.
pub proof fn lemma_accumulates_empty<T, F: Fn(T, T, T) -> T>(
    step: F,
    init: T,
    terms: Seq<(T, T)>,
    r: T,
)
    requires
        terms.len() == 0,
        accumulates(step, init, terms, r),
    ensures
        r == init,
{
}

/// A fold over a nonempty sequence ends with one step from a value of the fold
/// over all terms but the last.
pub proof fn lemma_accumulates_last<T, F: Fn(T, T, T) -> T>(
    step: F,
    init: T,
    terms: Seq<(T, T)>,
    r: T,
) -> (prev: T)
    requires
        terms.len() > 0,
        accumulates(step, init, terms, r),
    ensures
        accumulates(step, init, terms.drop_last(), prev),
        call_ensures(step, (prev, terms.last().0, terms.last().1), r),
{
    choose|p: T|
        accumulates(step, init, terms.drop_last(), p) && #[trigger] call_ensures(
            step,
            (p, terms.last().0, terms.last().1),
            r,
        )
}

} // verus!
