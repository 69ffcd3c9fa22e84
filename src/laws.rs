use vstd::arithmetic::div_mod::lemma_fundamental_div_mod;
use vstd::prelude::*;

use crate::model::{
    accumulates, is_identity, is_product, lemma_accumulates_empty, lemma_accumulates_last, products,
    MatrixModel,
};

verus! {

/// Two well-formed matrices of one shape that agree on every cell are equal.
pub proof fn lemma_cellwise_equal<T>(m1: MatrixModel<T>, m2: MatrixModel<T>)
    requires
        m1.wf(),
        m2.wf(),
        m1.rows == m2.rows,
        m1.cols == m2.cols,
        forall|i: int, j: int| m1.in_bounds(i, j) ==> #[trigger] m1.at(i, j) == m2.at(i, j),
    ensures
        m1 == m2,
{
    assert forall|p: int| 0 <= p < m1.cells.len() implies m1.cells[p] == m2.cells[p] by {
        let cols = m1.cols as int;
        if cols == 0 {
            assert(m1.cells.len() == 0) by (nonlinear_arith)
                requires
                    m1.cells.len() == m1.rows * m1.cols,
                    m1.cols == 0,
            ;
        }
        lemma_fundamental_div_mod(p, cols);
        let i = p / cols;
        let j = p % cols;
        assert(0 <= i < m1.rows) by (nonlinear_arith)
            requires
                p == cols * i + j,
                0 <= j < cols,
                0 <= p < m1.rows * cols,
        ;
        assert(m1.at(i, j) == m2.at(i, j));
        assert(i * cols + j == p) by (nonlinear_arith)
            requires
                p == cols * i + j,
        ;
    }
    assert(m1.cells =~= m2.cells);
}

/// With a deterministic step, the fold of a sequence has at most one value.
proof fn lemma_accumulates_unique<T, F: Fn(T, T, T) -> T>(
    step: F,
    init: T,
    terms: Seq<(T, T)>,
    r1: T,
    r2: T,
)
    requires
        forall|args: (T, T, T), s1: T, s2: T|
            #[trigger] call_ensures(step, args, s1) && #[trigger] call_ensures(step, args, s2) ==> s1
                == s2,
        accumulates(step, init, terms, r1),
        accumulates(step, init, terms, r2),
    ensures
        r1 == r2,
    decreases terms.len(),
{
    if terms.len() > 0 {
        let prev1 = lemma_accumulates_last(step, init, terms, r1);
        let prev2 = lemma_accumulates_last(step, init, terms, r2);
        lemma_accumulates_unique(step, init, terms.drop_last(), prev1, prev2);
    }
}

/// Multiplication is deterministic: when each step has a single possible
/// result, two products of the same factors are the same matrix, cell for cell.
pub proof fn lemma_product_deterministic<T, F: Fn(T, T, T) -> T>(
    a: MatrixModel<T>,
    b: MatrixModel<T>,
    zero: T,
    step: F,
    m1: MatrixModel<T>,
    m2: MatrixModel<T>,
)
    requires
        forall|args: (T, T, T), s1: T, s2: T|
            #[trigger] call_ensures(step, args, s1) && #[trigger] call_ensures(step, args, s2) ==> s1
                == s2,
        is_product(a, b, zero, step, m1),
        is_product(a, b, zero, step, m2),
    ensures
        m1 == m2,
{
    assert forall|i: int, j: int| m1.in_bounds(i, j) implies #[trigger] m1.at(i, j) == m2.at(
        i,
        j,
    ) by {
        assert(m2.in_bounds(i, j));
        lemma_accumulates_unique(step, zero, products(a, b, i, j), m1.at(i, j), m2.at(i, j));
    }
    lemma_cellwise_equal(m1, m2);
}

/// Folding row `i` of `a` against column `j` of an identity matrix: after the
/// first `p` products the sum is still `zero` while `p <= j`, and `a[i][j]` after.
proof fn lemma_identity_prefix<T, F: Fn(T, T, T) -> T>(
    a: MatrixModel<T>,
    id: MatrixModel<T>,
    zero: T,
    one: T,
    step: F,
    i: int,
    j: int,
    p: int,
    r: T,
)
    requires
        a.wf(),
        is_identity(id, a.cols, zero, one),
        forall|acc: T, x: T, s: T| #[trigger] call_ensures(step, (acc, x, zero), s) ==> s == acc,
        forall|x: T, s: T| #[trigger] call_ensures(step, (zero, x, one), s) ==> s == x,
        0 <= i < a.rows,
        0 <= j < a.cols,
        0 <= p <= a.cols,
        accumulates(step, zero, products(a, id, i, j).take(p), r),
    ensures
        r == if p <= j {
            zero
        } else {
            a.at(i, j)
        },
    decreases p,
{
    let terms = products(a, id, i, j).take(p);
    if p == 0 {
        lemma_accumulates_empty(step, zero, terms, r);
    } else {
        let last = terms.last();
        let prev = lemma_accumulates_last(step, zero, terms, r);
        assert(terms.drop_last() =~= products(a, id, i, j).take(p - 1));
        lemma_identity_prefix(a, id, zero, one, step, i, j, p - 1, prev);
        let k = p - 1;
        assert(last == (a.at(i, k), id.at(k, j)));
        assert(id.in_bounds(k, j));
        if k == j {
            assert(call_ensures(step, (zero, last.0, one), r));
        } else {
            assert(call_ensures(step, (prev, last.0, zero), r));
        }
    }
}

/// Multiplying by an identity matrix gives back the first factor, for any step
/// that leaves a sum unchanged when one of the factors is `zero` and that turns
/// `zero` into `x` when it adds `x` times `one`.
pub proof fn lemma_multiply_identity<T, F: Fn(T, T, T) -> T>(
    a: MatrixModel<T>,
    id: MatrixModel<T>,
    zero: T,
    one: T,
    step: F,
    m: MatrixModel<T>,
)
    requires
        a.wf(),
        is_identity(id, a.cols, zero, one),
        forall|acc: T, x: T, s: T| #[trigger] call_ensures(step, (acc, x, zero), s) ==> s == acc,
        forall|x: T, s: T| #[trigger] call_ensures(step, (zero, x, one), s) ==> s == x,
        is_product(a, id, zero, step, m),
    ensures
        m == a,
{
    assert forall|i: int, j: int| m.in_bounds(i, j) implies #[trigger] m.at(i, j) == a.at(i, j) by {
        let terms = products(a, id, i, j);
        assert(terms.take(a.cols as int) =~= terms);
        lemma_identity_prefix(a, id, zero, one, step, i, j, a.cols as int, m.at(i, j));
    }
    lemma_cellwise_equal(m, a);
}

} // verus!
