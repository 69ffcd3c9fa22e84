use vstd::prelude::*;

use crate::error::MatrixError;
use crate::text::{grid_text, is_compact, push_grid, push_summary, summary_text, views};
use crate::model::{
    accumulates, is_identity, is_product, lemma_offset_before_row, lemma_offset_in_range,
    products, MatrixModel,
};

verus! {

/// `texts` holds, cell by cell, a string that `text` can give for each of `cells`.
pub open spec fn texts_of<T, F: Fn(T) -> String>(text: F, cells: Seq<T>, texts: Seq<String>) -> bool {
    &&& texts.len() == cells.len()
    &&& forall|k: int| 0 <= k < cells.len() ==> call_ensures(text, (cells[k],), #[trigger] texts[k])
}

/// A dense matrix stored row-major: cell `(i, j)` sits at offset `i * cols + j`.
pub struct Matrix<T> {
    rows: usize,
    cols: usize,
    data: Vec<T>,
}

impl<T> View for Matrix<T> {
    type V = MatrixModel<T>;

    closed spec fn view(&self) -> MatrixModel<T> {
        MatrixModel { rows: self.rows as nat, cols: self.cols as nat, cells: self.data@ }
    }
}

impl<T: Copy> Matrix<T> {
    /// The matrix with no rows, no columns and no cells.
    pub fn empty() -> (r: Matrix<T>)
        ensures
            r@.wf(),
            r@.rows == 0,
            r@.cols == 0,
            r@.cells.len() == 0,
    {
        Matrix { rows: 0, cols: 0, data: Vec::new() }
    }

    /// Builds a `rows` by `cols` matrix from its cells listed row by row;
    /// `None` when there are not exactly `rows * cols` of them.
    pub fn from_row_major(rows: usize, cols: usize, data: Vec<T>) -> (r: Option<Matrix<T>>)
        ensures
            r is Some <==> data@.len() == rows * cols,
            r matches Some(m) ==> m@.wf() && m@.rows == rows && m@.cols == cols && m@.cells
                == data@,
    {
        match rows.checked_mul(cols) {
            Some(n) => {
                if n == data.len() {
                    Some(Matrix { rows, cols, data })
                } else {
                    None
                }
            },
            None => {
                proof {
                    assert(data.len() == data@.len());
                    assert(data@.len() != rows * cols) by (nonlinear_arith)
                        requires
                            rows * cols > usize::MAX,
                            data@.len() <= usize::MAX,
                    ;
                }
                None
            },
        }
    }

    /// The `n` by `n` matrix with `one` on the diagonal and `zero` elsewhere.
    pub fn identity(n: usize, zero: T, one: T) -> (r: Option<Matrix<T>>)
        ensures
            r is Some <==> n * n <= usize::MAX,
            r matches Some(m) ==> is_identity(m@, n as nat, zero, one),
    {
        if n.checked_mul(n).is_none() {
            return None;
        }
        let mut data: Vec<T> = Vec::new();
        let mut i: usize = 0;
        while i < n
            invariant
                n * n <= usize::MAX,
                i <= n,
                data@.len() == i * n,
                forall|ii: int, jj: int|
                    0 <= ii < i && 0 <= jj < n ==> #[trigger] data@[ii * n + jj] == if ii == jj {
                        one
                    } else {
                        zero
                    },
            decreases n - i,
        {
            let mut j: usize = 0;
            while j < n
                invariant
                    n * n <= usize::MAX,
                    i < n,
                    j <= n,
                    data@.len() == i * n + j,
                    forall|ii: int, jj: int|
                        ((0 <= ii < i && 0 <= jj < n) || (ii == i && 0 <= jj < j)) ==> #[trigger] data@[ii
                            * n + jj] == if ii == jj {
                            one
                        } else {
                            zero
                        },
                decreases n - j,
            {
                proof {
                    lemma_offset_in_range(i as int, j as int, n as int, n as int);
                }
                let ghost before = data@;
                if i == j {
                    data.push(one);
                } else {
                    data.push(zero);
                }
                assert forall|ii: int, jj: int|
                    ((0 <= ii < i && 0 <= jj < n) || (ii == i && 0 <= jj <= j)) implies #[trigger] data@[ii
                    * n + jj] == if ii == jj {
                    one
                } else {
                    zero
                } by {
                    if ii < i {
                        lemma_offset_before_row(ii, jj, i as int, n as int);
                        assert(data@[ii * n + jj] == before[ii * n + jj]);
                    } else if jj < j {
                        assert(data@[ii * n + jj] == before[ii * n + jj]);
                    }
                }
                j += 1;
            }
            proof {
                assert((i + 1) * n == i * n + n) by (nonlinear_arith);
            }
            i += 1;
        }
        let r = Matrix { rows: n, cols: n, data };
        assert forall|i: int, j: int| r@.in_bounds(i, j) implies #[trigger] r@.at(i, j) == if i
            == j {
            one
        } else {
            zero
        } by {
            assert(r@.at(i, j) == data@[i * n + j]);
        }
        Some(r)
    }

    /// The number of rows.
    pub fn rows(&self) -> (r: usize)
        ensures
            r == self@.rows,
    {
        self.rows
    }

    /// The number of columns.
    pub fn cols(&self) -> (r: usize)
        ensures
            r == self@.cols,
    {
        self.cols
    }

    /// The shape `(rows, cols)`.
    pub fn shape(&self) -> (r: (usize, usize))
        ensures
            r.0 == self@.rows,
            r.1 == self@.cols,
    {
        (self.rows, self.cols)
    }

    /// The cell at row `i`, column `j`; asking for a cell outside the matrix
    /// is a defect of the caller and is ruled out by the precondition.
    pub fn get(&self, i: usize, j: usize) -> (r: T)
        requires
            self@.wf(),
            self@.in_bounds(i as int, j as int),
        ensures
            r == self@.at(i as int, j as int),
    {
        proof {
            lemma_offset_in_range(i as int, j as int, self.rows as int, self.cols as int);
            assert(self.data.len() == self.data@.len());
        }
        self.data[i * self.cols + j]
    }

    /// The cell at row `i`, column `j`, or an error naming the shape and the
    /// indices when there is no such cell.
    pub fn checked_get(&self, i: usize, j: usize) -> (r: Result<T, MatrixError>)
        requires
            self@.wf(),
        ensures
            r is Ok <==> self@.in_bounds(i as int, j as int),
            r matches Ok(v) ==> v == self@.at(i as int, j as int),
            r matches Err(e) ==> e == (MatrixError::IndexOutOfBounds {
                rows: self@.rows as usize,
                cols: self@.cols as usize,
                i,
                j,
            }),
    {
        if i < self.rows && j < self.cols {
            Ok(self.get(i, j))
        } else {
            Err(MatrixError::IndexOutOfBounds { rows: self.rows, cols: self.cols, i, j })
        }
    }
    /// The product `first * second`, computed by the textbook triple loop.
    ///
    /// Cell `(i, j)` starts at `zero` and takes `acc = step(acc, first[i][k], second[k][j])`
    /// for `k` ascending over the inner dimension; with `|acc, x, y| acc + x * y` this is
    /// the usual sum of products. Fails, leaving both inputs untouched, when the column
    /// count of `first` differs from the row count of `second`.
    pub fn multiply<F: Fn(T, T, T) -> T>(first: &Matrix<T>, second: &Matrix<T>, zero: T, step: F) -> (r:
        Result<Matrix<T>, MatrixError>)
        requires
            first@.wf(),
            second@.wf(),
            forall|acc: T, x: T, y: T| #[trigger] call_requires(step, (acc, x, y)),
        ensures
            r is Ok <==> first@.cols == second@.rows,
            r matches Ok(m) ==> is_product(first@, second@, zero, step, m@),
            r matches Err(e) ==> e == (MatrixError::DimensionMismatch {
                first_cols: first@.cols as usize,
                second_rows: second@.rows as usize,
            }),
    {
        if first.cols != second.rows {
            return Err(
                MatrixError::DimensionMismatch { first_cols: first.cols, second_rows: second.rows },
            );
        }
        let rows = first.rows;
        let inner = first.cols;
        let cols = second.cols;
        let ghost a = first@;
        let ghost b = second@;
        let mut data: Vec<T> = Vec::new();
        let mut i: usize = 0;
        while i < rows
            invariant
                a == first@,
                b == second@,
                a.wf(),
                b.wf(),
                rows == a.rows,
                inner == a.cols,
                inner == b.rows,
                cols == b.cols,
                forall|acc: T, x: T, y: T| #[trigger] call_requires(step, (acc, x, y)),
                i <= rows,
                data@.len() == i * cols,
                forall|ii: int, jj: int|
                    0 <= ii < i && 0 <= jj < cols ==> accumulates(
                        step,
                        zero,
                        products(a, b, ii, jj),
                        #[trigger] data@[ii * cols + jj],
                    ),
            decreases rows - i,
        {
            let mut j: usize = 0;
            while j < cols
                invariant
                    a == first@,
                    b == second@,
                    a.wf(),
                    b.wf(),
                    rows == a.rows,
                    inner == a.cols,
                    inner == b.rows,
                    cols == b.cols,
                    forall|acc: T, x: T, y: T| #[trigger] call_requires(step, (acc, x, y)),
                    i < rows,
                    j <= cols,
                    data@.len() == i * cols + j,
                    forall|ii: int, jj: int|
                        ((0 <= ii < i && 0 <= jj < cols) || (ii == i && 0 <= jj < j)) ==> accumulates(
                            step,
                            zero,
                            products(a, b, ii, jj),
                            #[trigger] data@[ii * cols + jj],
                        ),
                decreases cols - j,
            {
                let ghost terms = products(a, b, i as int, j as int);
                let mut sum = zero;
                let mut k: usize = 0;
                assert(terms.take(0).len() == 0);
                while k < inner
                    invariant
                        a == first@,
                        b == second@,
                        a.wf(),
                        b.wf(),
                        rows == a.rows,
                        inner == a.cols,
                        inner == b.rows,
                        cols == b.cols,
                        forall|acc: T, x: T, y: T| #[trigger] call_requires(step, (acc, x, y)),
                        i < rows,
                        j < cols,
                        k <= inner,
                        terms == products(a, b, i as int, j as int),
                        accumulates(step, zero, terms.take(k as int), sum),
                    decreases inner - k,
                {
                    let x = first.get(i, k);
                    let y = second.get(k, j);
                    let next = step(sum, x, y);
                    proof {
                        let done = terms.take(k as int + 1);
                        assert(done.drop_last() =~= terms.take(k as int));
                        assert(done.last() == (x, y));
                        assert(call_ensures(step, (sum, done.last().0, done.last().1), next));
                    }
                    sum = next;
                    k += 1;
                }
                assert(terms.take(inner as int) =~= terms);
                proof {
                    lemma_offset_in_range(i as int, j as int, rows as int, cols as int);
                }
                let ghost before = data@;
                data.push(sum);
                assert forall|ii: int, jj: int|
                    ((0 <= ii < i && 0 <= jj < cols) || (ii == i && 0 <= jj <= j)) implies accumulates(
                    step,
                    zero,
                    products(a, b, ii, jj),
                    #[trigger] data@[ii * cols + jj],
                ) by {
                    if ii < i {
                        lemma_offset_before_row(ii, jj, i as int, cols as int);
                        assert(data@[ii * cols + jj] == before[ii * cols + jj]);
                    } else if jj < j {
                        assert(data@[ii * cols + jj] == before[ii * cols + jj]);
                    }
                }
                j += 1;
            }
            proof {
                assert((i + 1) * cols == i * cols + cols) by (nonlinear_arith);
            }
            i += 1;
        }
        let m = Matrix { rows, cols, data };
        assert forall|ii: int, jj: int| m@.in_bounds(ii, jj) implies accumulates(
            step,
            zero,
            products(a, b, ii, jj),
            #[trigger] m@.at(ii, jj),
        ) by {
            assert(m@.at(ii, jj) == data@[ii * cols + jj]);
        }
        Ok(m)
    }
    /// The matrix as text. A matrix with fewer than 5 rows and fewer than 5
    /// columns is shown in full: one line per row, each cell's `text`
    /// right-aligned in a field of 5 characters and followed by a space. Any
    /// other matrix is summarised as `Matrix(<rows>, <cols>)`, and `text` is
    /// not called.
    pub fn render_with<F: Fn(T) -> String>(&self, text: F) -> (r: String)
        requires
            self@.wf(),
            forall|x: T| #[trigger] call_requires(text, (x,)),
        ensures
            !is_compact(self@.rows, self@.cols) ==> r@ == summary_text(self@.rows, self@.cols),
            is_compact(self@.rows, self@.cols) ==> exists|texts: Seq<String>|
                #[trigger] texts_of(text, self@.cells, texts) && r@ == grid_text(
                    views(texts),
                    self@.cols,
                    self@.rows as int,
                ),
    {
        let mut out = String::new();
        if self.rows < 5 && self.cols < 5 {
            let mut texts: Vec<String> = Vec::new();
            let mut k: usize = 0;
            while k < self.data.len()
                invariant
                    forall|x: T| #[trigger] call_requires(text, (x,)),
                    k <= self.data@.len(),
                    texts@.len() == k,
                    forall|q: int|
                        0 <= q < k ==> call_ensures(text, (self.data@[q],), #[trigger] texts@[q]),
                decreases self.data@.len() - k,
            {
                texts.push(text(self.data[k]));
                k += 1;
            }
            assert(texts_of(text, self@.cells, texts@));
            push_grid(&mut out, &texts, self.rows, self.cols);
            assert(out@ =~= grid_text(views(texts@), self@.cols, self@.rows as int));
        } else {
            push_summary(&mut out, self.rows, self.cols);
            assert(out@ =~= summary_text(self@.rows, self@.cols));
        }
        out
    }
}

} // verus!
