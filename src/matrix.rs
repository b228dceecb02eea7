//! The shared data: a square matrix stored row by row in one contiguous
//! buffer, and the row reduction that each worker computes over it.
//!
//! The matrix has no method that changes it once it is built, so every
//! worker that holds a shared reference to it reads the same cells.
use vstd::prelude::*;

verus! {

/// An `n × n` matrix, row-major in one buffer.
pub struct SquareMatrix<T> {
    size: usize,
    cells: Vec<T>,
}

/// The rows of an `n × n` matrix whose row-major cells are `cells`.
pub open spec fn rows_of<T>(n: nat, cells: Seq<T>) -> Seq<Seq<T>> {
    Seq::new(n, |i: int| Seq::new(n, |j: int| cells[i * n + j]))
}

proof fn lemma_cell_in_bounds(n: int, i: int, j: int)
    requires
        0 <= i < n,
        0 <= j < n,
    ensures
        0 <= i * n + j < n * n,
{
    assert(i * n + j < n * n) by (nonlinear_arith)
        requires
            0 <= i < n,
            0 <= j < n,
    ;
    assert(0 <= i * n) by (nonlinear_arith)
        requires
            0 <= i,
            0 <= n,
    ;
}

impl<T> View for SquareMatrix<T> {
    type V = Seq<Seq<T>>;

    closed spec fn view(&self) -> Seq<Seq<T>> {
        rows_of(self.size as nat, self.cells@)
    }
}

impl<T> SquareMatrix<T> {
    #[verifier::type_invariant]
    spec fn inv(&self) -> bool {
        self.cells@.len() == self.size as int * self.size as int
    }

    /// Builds the matrix of side `size` whose cells, row by row, are `cells`;
    /// `None` when there are not exactly `size * size` of them.
    pub fn from_cells(size: usize, cells: Vec<T>) -> (r: Option<Self>)
        ensures
            r is Some <==> cells@.len() == size as int * size as int,
            r matches Some(m) ==> m@ == rows_of(size as nat, cells@) && m@.len() == size,
    {
        let len = cells.len();
        match size.checked_mul(size) {
            Some(total) => if len == total {
                let m = SquareMatrix { size, cells };
                assert(m@.len() == size);
                Some(m)
            } else {
                None
            },
            None => None,
        }
    }

    /// The side length `n`.
    pub fn size(&self) -> (r: usize)
        ensures
            r == self@.len(),
    {
        self.size
    }

    /// The cell in row `i`, column `j`.
    pub fn at(&self, i: usize, j: usize) -> (r: &T)
        requires
            i < self@.len(),
            j < self@.len(),
        ensures
            *r == self@[i as int][j as int],
    {
        let len = self.cells.len();
        proof {
            use_type_invariant(self);
            lemma_cell_in_bounds(self.size as int, i as int, j as int);
            assert(i as int * self.size as int + j < self.cells@.len());
        }
        &self.cells[i * self.size + j]
    }

    /// Reduces each row `i` to one value: starting from `zero`, folds `step`
    /// over the columns `j = 0, 1, ..., n - 1`, left to right, handing it the
    /// cell `(i, j)` and its mirror `(j, i)`. The result holds one value per
    /// row, in row order.
    pub fn reduce_rows<A: Copy, F: Fn(A, T, T) -> A>(&self, zero: A, step: &F) -> (v: Vec<A>)
        where
            T: Copy,
        requires
            forall|a: A, x: T, y: T| #[trigger] step.requires((a, x, y)),
        ensures
            reduces_to(self@, zero, *step, v@),
    {
        let n = self.size();
        let mut v: Vec<A> = Vec::with_capacity(n);
        let mut i: usize = 0;
        let ghost mut traces: Seq<Seq<A>> = Seq::empty();
        while i < n
            invariant
                n == self@.len(),
                i <= n,
                v@.len() == i,
                forall|a: A, x: T, y: T| #[trigger] step.requires((a, x, y)),
                traces.len() == i,
                forall|r: int|
                    0 <= r < i ==> row_trace(self@, r, zero, *step, #[trigger] traces[r])
                        && traces[r].last() == v@[r],
            decreases n - i,
        {
            let mut acc = zero;
            let ghost mut accs: Seq<A> = seq![zero];
            let mut j: usize = 0;
            while j < n
                invariant
                    n == self@.len(),
                    i < n,
                    j <= n,
                    accs.len() == j + 1,
                    accs[0] == zero,
                    accs.last() == acc,
                    forall|a: A, x: T, y: T| #[trigger] step.requires((a, x, y)),
                    forall|c: int|
                        0 <= c < j ==> step.ensures(
                            (accs[c], self@[i as int][c], self@[c][i as int]),
                            #[trigger] accs[c + 1],
                        ),
                decreases n - j,
            {
                let x = *self.at(i, j);
                let y = *self.at(j, i);
                let next = step(acc, x, y);
                proof {
                    accs = accs.push(next);
                }
                acc = next;
                j = j + 1;
            }
            assert(row_trace(self@, i as int, zero, *step, accs));
            v.push(acc);
            proof {
                traces = traces.push(accs);
            }
            i = i + 1;
        }
        assert forall|r: int| 0 <= r < n implies #[trigger] row_reduces_to(
            self@,
            r,
            zero,
            *step,
            v@[r],
        ) by {
            assert(row_trace(self@, r, zero, *step, traces[r]));
        }
        v
    }
}

/// `accs` is the run of accumulators of row `i`: it starts at `zero`, and each
/// next one is what `step` gives on the one before it, the cell `(i, j)` and
/// the cell `(j, i)`.
pub open spec fn row_trace<T, A, F: Fn(A, T, T) -> A>(
    rows: Seq<Seq<T>>,
    i: int,
    zero: A,
    step: F,
    accs: Seq<A>,
) -> bool {
    &&& accs.len() == rows.len() + 1
    &&& accs[0] == zero
    &&& forall|j: int|
        0 <= j < rows.len() ==> step.ensures(
            (accs[j], rows[i][j], rows[j][i]),
            #[trigger] accs[j + 1],
        )
}

/// `r` is the last accumulator of a run of row `i`.
pub open spec fn row_reduces_to<T, A, F: Fn(A, T, T) -> A>(
    rows: Seq<Seq<T>>,
    i: int,
    zero: A,
    step: F,
    r: A,
) -> bool {
    exists|accs: Seq<A>| row_trace(rows, i, zero, step, accs) && accs.last() == r
}

/// `v` holds, for each row of `rows`, the last accumulator of a run of that row.
pub open spec fn reduces_to<T, A, F: Fn(A, T, T) -> A>(
    rows: Seq<Seq<T>>,
    zero: A,
    step: F,
    v: Seq<A>,
) -> bool {
    &&& v.len() == rows.len()
    &&& forall|i: int| 0 <= i < rows.len() ==> #[trigger] row_reduces_to(rows, i, zero, step, v[i])
}

/// `step` gives at most one result for each input.
pub open spec fn functional<T, A, F: Fn(A, T, T) -> A>(step: F) -> bool {
    forall|a: A, x: T, y: T, r1: A, r2: A|
        #[trigger] step.ensures((a, x, y), r1) && #[trigger] step.ensures((a, x, y), r2) ==> r1
            == r2
}

proof fn lemma_traces_agree_upto<T, A, F: Fn(A, T, T) -> A>(
    rows: Seq<Seq<T>>,
    i: int,
    zero: A,
    step: F,
    t1: Seq<A>,
    t2: Seq<A>,
    k: int,
)
    requires
        functional(step),
        row_trace(rows, i, zero, step, t1),
        row_trace(rows, i, zero, step, t2),
        0 <= k <= rows.len(),
    ensures
        t1[k] == t2[k],
    decreases k,
{
    if k > 0 {
        lemma_traces_agree_upto(rows, i, zero, step, t1, t2, k - 1);
        let j = k - 1;
        assert(step.ensures((t1[j], rows[i][j], rows[j][i]), t1[j + 1]));
        assert(step.ensures((t2[j], rows[i][j], rows[j][i]), t2[j + 1]));
    }
}

/// The reduction is a function of the matrix: where `step` gives one result
/// for each input, any two reductions of the same rows from the same start
/// are equal, value for value.
pub proof fn lemma_reduction_deterministic<T, A, F: Fn(A, T, T) -> A>(
    rows: Seq<Seq<T>>,
    zero: A,
    step: F,
    v1: Seq<A>,
    v2: Seq<A>,
)
    requires
        functional(step),
        reduces_to(rows, zero, step, v1),
        reduces_to(rows, zero, step, v2),
    ensures
        v1 == v2,
{
    assert forall|i: int| 0 <= i < v1.len() implies v1[i] == v2[i] by {
        assert(row_reduces_to(rows, i, zero, step, v1[i]));
        assert(row_reduces_to(rows, i, zero, step, v2[i]));
        let t1 = choose|t: Seq<A>| row_trace(rows, i, zero, step, t) && t.last() == v1[i];
        let t2 = choose|t: Seq<A>| row_trace(rows, i, zero, step, t) && t.last() == v2[i];
        lemma_traces_agree_upto(rows, i, zero, step, t1, t2, rows.len() as int);
    }
    assert(v1 =~= v2);
}

} // verus!
