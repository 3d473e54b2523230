use vstd::prelude::*;
use vstd::arithmetic::div_mod::lemma_fundamental_div_mod_converse;
use crate::error::MatrixError;
use crate::vector::{dot, dot_fits, dot_product, Vector};

verus! {

/// How many workers the cells of a product are spread over.
pub const NUM_THREADS: usize = 4;

/// A dense matrix of `i64`, stored row-major: element `(i, j)` sits at
/// `i * columns + j` of `data`.
pub struct Matrix {
    rows: usize,
    columns: usize,
    data: Vec<i64>,
}

/// `i * c + j` is a flat index below `r * c` whenever `i < r` and `j < c`.
pub(crate) proof fn lemma_flat_index(i: int, j: int, r: int, c: int)
    requires
        0 <= i < r,
        0 <= j < c,
    ensures
        0 <= i * c,
        0 <= i * c + j < r * c,
        (i + 1) * c <= r * c,
        (i * c + j) / c == i,
        (i * c + j) % c == j,
{
    assert(0 <= i * c) by (nonlinear_arith)
        requires
            0 <= i,
            0 <= c,
    ;
    assert((i + 1) * c <= r * c) by (nonlinear_arith)
        requires
            i + 1 <= r,
            0 <= c,
    ;
    assert((i + 1) * c == i * c + c) by (nonlinear_arith);
    lemma_fundamental_div_mod_converse(i * c + j, c, i, j);
}

/// Row `i` of an `r` by `c` layout lies within the first `r * c` elements.
proof fn lemma_row_span(i: int, r: int, c: int)
    requires
        0 <= i < r,
        0 <= c,
    ensures
        0 <= i * c,
        (i + 1) * c == i * c + c,
        (i + 1) * c <= r * c,
{
    assert(0 <= i * c) by (nonlinear_arith)
        requires
            0 <= i,
            0 <= c,
    ;
    assert((i + 1) * c <= r * c) by (nonlinear_arith)
        requires
            i + 1 <= r,
            0 <= c,
    ;
    assert((i + 1) * c == i * c + c) by (nonlinear_arith);
}

impl Matrix {
    /// Number of rows.
    pub closed spec fn nrows(&self) -> nat {
        self.rows as nat
    }

    /// Number of columns.
    pub closed spec fn ncols(&self) -> nat {
        self.columns as nat
    }

    /// The elements, row after row.
    pub closed spec fn cells(&self) -> Seq<i64> {
        self.data@
    }

    /// The storage holds exactly `rows * columns` elements.
    pub open spec fn wf(&self) -> bool {
        self.cells().len() == self.nrows() * self.ncols()
    }

    /// Row `i`: the elements `i * columns .. (i + 1) * columns`.
    pub open spec fn row_of(&self, i: int) -> Seq<i64> {
        self.cells().subrange(i * self.ncols(), (i + 1) * self.ncols())
    }

    /// Column `j`: the elements `j, j + columns, j + 2 * columns, ...`, one per row.
    pub open spec fn column_of(&self, j: int) -> Seq<i64> {
        Seq::new(self.nrows(), |k: int| self.cells()[k * self.ncols() + j])
    }

    /// Wraps `data` as a `rows` by `columns` matrix.
    pub fn new(data: Vec<i64>, rows: usize, columns: usize) -> (m: Self)
        requires
            data@.len() == rows * columns,
        ensures
            m.wf(),
            m.nrows() == rows,
            m.ncols() == columns,
            m.cells() == data@,
    {
        Matrix { rows, columns, data }
    }

    pub fn rows(&self) -> (r: usize)
        ensures
            r == self.nrows(),
    {
        self.rows
    }

    pub fn columns(&self) -> (c: usize)
        ensures
            c == self.ncols(),
    {
        self.columns
    }

    pub fn data(&self) -> (d: &Vec<i64>)
        ensures
            d@ == self.cells(),
    {
        &self.data
    }

    /// An owned copy of row `i`.
    pub fn row(&self, i: usize) -> (v: Vector)
        requires
            self.wf(),
            i < self.nrows(),
        ensures
            v@ == self.row_of(i as int),
    {
        let c = self.columns;
        let n = self.data.len();
        proof {
            lemma_row_span(i as int, self.rows as int, c as int);
        }
        let start = i * c;
        let mut out: Vec<i64> = Vec::new();
        let mut t: usize = 0;
        while t < c
            invariant
                c == self.ncols(),
                start == i * c,
                n == self.data@.len(),
                start + c <= n,
                t <= c,
                out@ == self.data@.subrange(start as int, start + t),
            decreases c - t,
        {
            out.push(self.data[start + t]);
            t = t + 1;
            assert(out@ =~= self.data@.subrange(start as int, start + t));
        }
        Vector::new(out)
    }

    /// An owned copy of column `j`.
    pub fn column(&self, j: usize) -> (v: Vector)
        requires
            self.wf(),
            j < self.ncols(),
        ensures
            v@ == self.column_of(j as int),
    {
        let c = self.columns;
        let r = self.rows;
        let n = self.data.len();
        let mut out: Vec<i64> = Vec::new();
        let mut k: usize = 0;
        while k < r
            invariant
                c == self.ncols(),
                r == self.nrows(),
                j < c,
                n == self.data@.len(),
                n == r * c,
                k <= r,
                out@.len() == k,
                forall|t: int| 0 <= t < k ==> out@[t] == self.data@[t * c + j],
            decreases r - k,
        {
            proof {
                lemma_flat_index(k as int, j as int, r as int, c as int);
            }
            out.push(self.data[k * c + j]);
            k = k + 1;
        }
        let v = Vector::new(out);
        assert(v@ =~= self.column_of(j as int));
        v
    }
}

/// The work for one output cell: its flat destination index and the row
/// and column whose dot product fills it.
pub struct MsgInput {
    pub idx: usize,
    pub row: Vector,
    pub col: Vector,
}

impl MsgInput {
    pub fn new(idx: usize, row: Vector, col: Vector) -> (m: Self)
        ensures
            m.idx == idx,
            m.row@ == row@,
            m.col@ == col@,
    {
        MsgInput { idx, row, col }
    }

    /// The worker's step: the dot product of the task's row and column,
    /// tagged with the task's destination index. A failing dot product is
    /// answered with its error, so that no cell goes unanswered.
    pub fn compute(self) -> (r: Result<MsgOutput, MatrixError>)
        ensures
            self.row@.len() != self.col@.len() ==> r == Err::<MsgOutput, MatrixError>(
                MatrixError::LengthMismatch,
            ),
            self.row@.len() == self.col@.len() && !dot_fits(self.row@, self.col@) ==> r == Err::<
                MsgOutput,
                MatrixError,
            >(MatrixError::Overflow),
            self.row@.len() == self.col@.len() && dot_fits(self.row@, self.col@) ==> r is Ok
                && r->Ok_0.idx == self.idx && r->Ok_0.val == dot(self.row@, self.col@),
    {
        let idx = self.idx;
        match dot_product(self.row, self.col) {
            Ok(val) => Ok(MsgOutput::new(idx, val)),
            Err(e) => Err(e),
        }
    }
}

/// The answer for one output cell.
#[derive(Debug, Clone, Copy, PartialEq, Eq, Structural)]
pub struct MsgOutput {
    pub idx: usize,
    pub val: i64,
}

impl MsgOutput {
    pub fn new(idx: usize, val: i64) -> (m: Self)
        ensures
            m.idx == idx,
            m.val == val,
    {
        MsgOutput { idx, val }
    }
}

/// The worker that handles destination index `idx`.
pub open spec fn worker_of(idx: int) -> int {
    idx % (NUM_THREADS as int)
}

/// The worker that handles destination index `idx`: a fixed round robin
/// over the destination index, whatever the load.
pub fn worker_for(idx: usize) -> (w: usize)
    ensures
        w == worker_of(idx as int),
        w < NUM_THREADS,
{
    idx % NUM_THREADS
}

/// Reply `r` answers cell `k` with a value.
pub open spec fn placed(r: Result<MsgOutput, MatrixError>, k: int) -> bool {
    r is Ok && r->Ok_0.idx == k
}

/// Every reply answers the cell at its own position with a value.
pub open spec fn all_placed(s: Seq<Result<MsgOutput, MatrixError>>) -> bool {
    forall|k: int| 0 <= k < s.len() ==> #[trigger] placed(s[k], k)
}

/// The error that an unplaced reply stands for: its own, or a misplaced answer.
pub open spec fn reply_error(r: Result<MsgOutput, MatrixError>) -> MatrixError {
    match r {
        Err(e) => e,
        Ok(_) => MatrixError::MisplacedReply,
    }
}

/// Reply `k` is the first of `s` that is not placed.
pub open spec fn first_unplaced(s: Seq<Result<MsgOutput, MatrixError>>, k: int) -> bool {
    &&& 0 <= k < s.len()
    &&& !placed(s[k], k)
    &&& forall|t: int| 0 <= t < k ==> #[trigger] placed(s[t], t)
}

/// Whether the cell at flat index `idx` of `a * b` can be accumulated in `i64`.
pub open spec fn cell_fits(a: Matrix, b: Matrix, idx: int) -> bool {
    dot_fits(a.row_of(idx / b.ncols() as int), b.column_of(idx % b.ncols() as int))
}

/// The cell at flat index `idx` of `a * b`.
pub open spec fn product_cell(a: Matrix, b: Matrix, idx: int) -> int {
    dot(a.row_of(idx / b.ncols() as int), b.column_of(idx % b.ncols() as int))
}

/// Every cell of `a * b` can be accumulated in `i64`.
pub open spec fn product_fits(a: Matrix, b: Matrix) -> bool {
    forall|idx: int| 0 <= idx < a.nrows() * b.ncols() ==> #[trigger] cell_fits(a, b, idx)
}

/// `ts` holds one task per cell of `a * b`, in row-major order: task `k`
/// fills flat index `k` from row `k / columns` of `a` and column
/// `k % columns` of `b`, both of the shared inner length.
pub open spec fn planned(a: Matrix, b: Matrix, ts: Seq<MsgInput>) -> bool {
    &&& ts.len() == a.nrows() * b.ncols()
    &&& forall|k: int|
        0 <= k < ts.len() ==> {
            &&& (#[trigger] ts[k]).idx == k
            &&& ts[k].row@ == a.row_of(k / b.ncols() as int)
            &&& ts[k].col@ == b.column_of(k % b.ncols() as int)
            &&& ts[k].row@.len() == a.ncols()
            &&& ts[k].col@.len() == a.ncols()
        }
}

/// `r` is what collecting `replies` into a `rows` by `columns` matrix gives:
/// a reply count other than `rows * columns` is refused; otherwise the
/// matrix of the replied values when every reply answers the cell at its
/// own position, and else the error of the first reply that does not.
pub open spec fn collected(
    rows: usize,
    columns: usize,
    replies: Seq<Result<MsgOutput, MatrixError>>,
    r: Result<Matrix, MatrixError>,
) -> bool {
    &&& replies.len() != rows * columns ==> r == Err::<Matrix, MatrixError>(MatrixError::ReplyCount)
    &&& replies.len() == rows * columns ==> (r is Ok <==> all_placed(replies))
    &&& r is Ok ==> {
        &&& r->Ok_0.wf()
        &&& r->Ok_0.nrows() == rows
        &&& r->Ok_0.ncols() == columns
        &&& r->Ok_0.cells().len() == replies.len()
        &&& forall|k: int|
            0 <= k < replies.len() ==> #[trigger] r->Ok_0.cells()[k] == replies[k]->Ok_0.val
    }
    &&& replies.len() == rows * columns && r is Err ==> exists|k: int|
        first_unplaced(replies, k) && r->Err_0 == reply_error(#[trigger] replies[k])
}

/// `r` is what multiplying `a` by `b` gives.
pub open spec fn multiplied(a: Matrix, b: Matrix, r: Result<Matrix, MatrixError>) -> bool {
    if a.ncols() != b.nrows() {
        r == Err::<Matrix, MatrixError>(MatrixError::DimensionMismatch)
    } else if !product_fits(a, b) {
        r == Err::<Matrix, MatrixError>(MatrixError::Overflow)
    } else {
        &&& r is Ok
        &&& r->Ok_0.wf()
        &&& r->Ok_0.nrows() == a.nrows()
        &&& r->Ok_0.ncols() == b.ncols()
        &&& forall|idx: int|
            0 <= idx < a.nrows() * b.ncols() ==> #[trigger] r->Ok_0.cells()[idx] == product_cell(
                a,
                b,
                idx,
            )
    }
}

impl Matrix {
    /// One task per cell of `self * other`, in row-major order.
    pub fn tasks(&self, other: &Matrix) -> (ts: Vec<MsgInput>)
        requires
            self.wf(),
            other.wf(),
            self.ncols() == other.nrows(),
            self.nrows() * other.ncols() <= usize::MAX,
        ensures
            planned(*self, *other, ts@),
    {
        let r = self.rows;
        let c = other.columns;
        let mut ts: Vec<MsgInput> = Vec::new();
        let mut i: usize = 0;
        while i < r
            invariant
                self.wf(),
                other.wf(),
                self.ncols() == other.nrows(),
                r == self.nrows(),
                c == other.ncols(),
                r * c <= usize::MAX,
                i <= r,
                ts@.len() == i * c,
                forall|k: int|
                    0 <= k < ts@.len() ==> {
                        &&& (#[trigger] ts@[k]).idx == k
                        &&& ts@[k].row@ == self.row_of(k / c as int)
                        &&& ts@[k].col@ == other.column_of(k % c as int)
                        &&& ts@[k].row@.len() == self.ncols()
                        &&& ts@[k].col@.len() == self.ncols()
                    },
            decreases r - i,
        {
            proof {
                lemma_row_span(i as int, r as int, c as int);
                lemma_row_span(i as int, r as int, self.columns as int);
            }
            let mut j: usize = 0;
            while j < c
                invariant
                    self.wf(),
                    other.wf(),
                    self.ncols() == other.nrows(),
                    r == self.nrows(),
                    c == other.ncols(),
                    r * c <= usize::MAX,
                    i < r,
                    j <= c,
                    (i + 1) * c <= r * c,
                    (i + 1) * self.ncols() <= self.cells().len(),
                    (i + 1) * self.ncols() == i * self.ncols() + self.ncols(),
                    0 <= i * self.ncols(),
                    ts@.len() == i * c + j,
                    forall|k: int|
                        0 <= k < ts@.len() ==> {
                            &&& (#[trigger] ts@[k]).idx == k
                            &&& ts@[k].row@ == self.row_of(k / c as int)
                            &&& ts@[k].col@ == other.column_of(k % c as int)
                            &&& ts@[k].row@.len() == self.ncols()
                            &&& ts@[k].col@.len() == self.ncols()
                        },
                decreases c - j,
            {
                proof {
                    lemma_flat_index(i as int, j as int, r as int, c as int);
                }
                let idx = i * c + j;
                let row = self.row(i);
                let col = other.column(j);
                ts.push(MsgInput::new(idx, row, col));
                j = j + 1;
            }
            i = i + 1;
        }
        ts
    }

    /// Assembles a `rows` by `columns` matrix from one reply per cell, taken
    /// in row-major order. The first reply that is an error, or that answers
    /// another cell than its position, decides the error.
    pub fn collect(rows: usize, columns: usize, replies: Vec<Result<MsgOutput, MatrixError>>) -> (r:
        Result<Matrix, MatrixError>)
        ensures
            collected(rows, columns, replies@, r),
    {
        let n = replies.len();
        match rows.checked_mul(columns) {
            None => {
                return Err(MatrixError::ReplyCount);
            },
            Some(m) => {
                if m != n {
                    return Err(MatrixError::ReplyCount);
                }
            },
        }
        let mut data: Vec<i64> = Vec::new();
        let mut k: usize = 0;
        while k < n
            invariant
                n == replies@.len(),
                n == rows * columns,
                k <= n,
                data@.len() == k,
                forall|t: int| 0 <= t < k ==> #[trigger] placed(replies@[t], t),
                forall|t: int| 0 <= t < k ==> #[trigger] data@[t] == replies@[t]->Ok_0.val,
            decreases n - k,
        {
            let reply = replies[k];
            match reply {
                Ok(out) => {
                    if out.idx != k {
                        assert(first_unplaced(replies@, k as int));
                        return Err(MatrixError::MisplacedReply);
                    }
                    data.push(out.val);
                },
                Err(e) => {
                    assert(first_unplaced(replies@, k as int));
                    return Err(e);
                },
            }
            k = k + 1;
        }
        Ok(Matrix { rows, columns, data })
    }

    /// The product `self * other`, computed cell by cell through the task
    /// protocol: build one task per cell, answer each with the worker's step,
    /// and collect the answers in row-major order.
    pub fn multiply(&self, other: &Matrix) -> (r: Result<Matrix, MatrixError>)
        requires
            self.wf(),
            other.wf(),
            self.nrows() * other.ncols() <= usize::MAX,
        ensures
            multiplied(*self, *other, r),
    {
        if self.columns != other.rows {
            return Err(MatrixError::DimensionMismatch);
        }
        let tasks = self.tasks(other);
        let ghost ts = tasks@;
        let mut replies: Vec<Result<MsgOutput, MatrixError>> = Vec::new();
        for task in it: tasks
            invariant
                it.seq() == ts,
                planned(*self, *other, ts),
                replies@.len() == it.index(),
                forall|k: int|
                    0 <= k < replies@.len() ==> {
                        &&& cell_fits(*self, *other, k) ==> placed(#[trigger] replies@[k], k)
                            && replies@[k]->Ok_0.val == product_cell(*self, *other, k)
                        &&& !cell_fits(*self, *other, k) ==> replies@[k] == Err::<
                            MsgOutput,
                            MatrixError,
                        >(MatrixError::Overflow)
                    },
        {
            replies.push(task.compute());
        }
        let ghost rs = replies@;
        let r = Matrix::collect(self.rows, other.columns, replies);
        proof {
            if r is Err {
                let k = choose|k: int| first_unplaced(rs, k) && r->Err_0 == reply_error(rs[k]);
                assert(!cell_fits(*self, *other, k));
                assert(!product_fits(*self, *other));
            } else {
                assert forall|idx: int| 0 <= idx < self.nrows() * other.ncols() implies #[trigger] cell_fits(
                    *self,
                    *other,
                    idx,
                ) by {
                    assert(placed(rs[idx], idx));
                }
            }
        }
        r
    }
}

/// Both results are the same matrix, or the same error.
pub open spec fn same_result(r1: Result<Matrix, MatrixError>, r2: Result<Matrix, MatrixError>) -> bool {
    match (r1, r2) {
        (Ok(m1), Ok(m2)) => m1.nrows() == m2.nrows() && m1.ncols() == m2.ncols() && m1.cells()
            == m2.cells(),
        (Err(e1), Err(e2)) => e1 == e2,
        _ => false,
    }
}

/// The product of an `r` by `k` and a `k` by `c` matrix is an `r` by `c`
/// matrix whose element `(i, j)` is the dot product of row `i` of the left
/// operand and column `j` of the right one, whenever that product can be
/// accumulated in `i64`.
pub proof fn lemma_product_is_dot_products(a: Matrix, b: Matrix, r: Result<Matrix, MatrixError>)
    requires
        a.wf(),
        b.wf(),
        a.ncols() == b.nrows(),
        product_fits(a, b),
        multiplied(a, b, r),
    ensures
        r is Ok,
        r->Ok_0.nrows() == a.nrows(),
        r->Ok_0.ncols() == b.ncols(),
        r->Ok_0.cells().len() == a.nrows() * b.ncols(),
        forall|i: int, j: int|
            0 <= i < a.nrows() && 0 <= j < b.ncols() ==> #[trigger] r->Ok_0.cells()[i * b.ncols()
                + j] == dot(a.row_of(i), b.column_of(j)),
{
    let m = r->Ok_0;
    assert forall|i: int, j: int| 0 <= i < a.nrows() && 0 <= j < b.ncols() implies #[trigger] m.cells()[i
        * b.ncols() + j] == dot(a.row_of(i), b.column_of(j)) by {
        lemma_flat_index(i, j, a.nrows() as int, b.ncols() as int);
        assert(m.cells()[i * b.ncols() + j] == product_cell(a, b, i * b.ncols() + j));
    }
}

/// Multiplying the same two matrices twice gives the same result.
pub proof fn lemma_multiply_deterministic(
    a: Matrix,
    b: Matrix,
    r1: Result<Matrix, MatrixError>,
    r2: Result<Matrix, MatrixError>,
)
    requires
        multiplied(a, b, r1),
        multiplied(a, b, r2),
    ensures
        same_result(r1, r2),
{
    if r1 is Ok {
        assert(r1->Ok_0.cells() =~= r2->Ok_0.cells());
    }
}

/// The tasks of a product cover every destination index below
/// `rows * columns` exactly once, and no other index: the task for `idx`
/// is the `idx`-th one submitted, and no two tasks share an index.
pub proof fn lemma_tasks_cover_each_cell_once(a: Matrix, b: Matrix, ts: Seq<MsgInput>)
    requires
        planned(a, b, ts),
    ensures
        forall|k: int| 0 <= k < ts.len() ==> 0 <= #[trigger] ts[k].idx < a.nrows() * b.ncols(),
        forall|idx: int|
            0 <= idx < a.nrows() * b.ncols() ==> idx < ts.len() && #[trigger] ts[idx].idx == idx,
        forall|k1: int, k2: int|
            0 <= k1 < ts.len() && 0 <= k2 < ts.len() && #[trigger] ts[k1].idx == #[trigger] ts[k2].idx
                ==> k1 == k2,
{
}

/// A collected product holds one reply for each destination index below
/// `rows * columns`, each written once, at its own index.
pub proof fn lemma_replies_fill_each_cell_once(
    rows: usize,
    columns: usize,
    replies: Seq<Result<MsgOutput, MatrixError>>,
    r: Result<Matrix, MatrixError>,
)
    requires
        collected(rows, columns, replies, r),
        r is Ok,
    ensures
        forall|idx: int|
            0 <= idx < rows * columns ==> #[trigger] replies[idx] is Ok && replies[idx]->Ok_0.idx
                == idx,
        forall|k1: int, k2: int|
            0 <= k1 < replies.len() && 0 <= k2 < replies.len() && #[trigger] replies[k1]->Ok_0.idx
                == #[trigger] replies[k2]->Ok_0.idx ==> k1 == k2,
{
    assert forall|idx: int| 0 <= idx < rows * columns implies #[trigger] replies[idx] is Ok
        && replies[idx]->Ok_0.idx == idx by {
        assert(placed(replies[idx], idx));
    }
    assert forall|k1: int, k2: int|
        0 <= k1 < replies.len() && 0 <= k2 < replies.len() && #[trigger] replies[k1]->Ok_0.idx
            == #[trigger] replies[k2]->Ok_0.idx implies k1 == k2 by {
        assert(placed(replies[k1], k1));
        assert(placed(replies[k2], k2));
    }
}

/// Destination index `idx` goes to worker `idx % NUM_THREADS`, which is
/// one of the workers; indices one round apart share a worker.
pub proof fn lemma_round_robin(idx: int)
    requires
        0 <= idx,
    ensures
        0 <= worker_of(idx) < NUM_THREADS,
        worker_of(idx) == idx % (NUM_THREADS as int),
        worker_of(idx + NUM_THREADS) == worker_of(idx),
{
    lemma_fundamental_div_mod_converse(
        idx + NUM_THREADS,
        NUM_THREADS as int,
        idx / (NUM_THREADS as int) + 1,
        idx % (NUM_THREADS as int),
    );
}

} // verus!
