use vstd::prelude::*;
use vstd::string::StringExecFns;

use crate::text::{decimal, push_decimal};

verus! {

/// The ways a matrix operation can fail.
#[derive(Debug, Clone, Copy, PartialEq, Eq, Structural)]
pub enum MatrixError {
    /// The first factor has `first_cols` columns but the second has `second_rows` rows.
    DimensionMismatch { first_cols: usize, second_rows: usize },
    /// Cell `(i, j)` was asked of a `rows` by `cols` matrix that has no such cell.
    IndexOutOfBounds { rows: usize, cols: usize, i: usize, j: usize },
}

impl MatrixError {
    /// The human-readable description of the failure, naming the numbers involved.
    pub open spec fn text(self) -> Seq<char> {
        match self {
            MatrixError::DimensionMismatch { first_cols, second_rows } => "the column count of the first matrix does not match the row count of the second matrix: "@
                + decimal(first_cols as nat) + " and "@ + decimal(second_rows as nat),
            MatrixError::IndexOutOfBounds { rows, cols, i, j } => "matrix index not within bound: matrix("@
                + decimal(rows as nat) + ", "@ + decimal(cols as nat) + "), i: "@ + decimal(i as nat)
                + ", j: "@ + decimal(j as nat),
        }
    }

    /// The description of the failure as a string.
    pub fn message(&self) -> (r: String)
        ensures
            r@ == self.text(),
    {
        let mut out = String::new();
        match *self {
            MatrixError::DimensionMismatch { first_cols, second_rows } => {
                out.append(
                    "the column count of the first matrix does not match the row count of the second matrix: ",
                );
                push_decimal(&mut out, first_cols);
                out.append(" and ");
                push_decimal(&mut out, second_rows);
            },
            MatrixError::IndexOutOfBounds { rows, cols, i, j } => {
                out.append("matrix index not within bound: matrix(");
                push_decimal(&mut out, rows);
                out.append(", ");
                push_decimal(&mut out, cols);
                out.append("), i: ");
                push_decimal(&mut out, i);
                out.append(", j: ");
                push_decimal(&mut out, j);
            },
        }
        assert(out@ =~= self.text());
        out
    }
}

} // verus!
