use vstd::prelude::*;

use vstd::arithmetic::div_mod::lemma_fundamental_div_mod_converse;

use vstd::pervasive::VecAdditionalExecFns;

use crate::error::MatMulError;
use crate::vector::{dot_fits, dot_kernel, dot_product, spec_dot, Vector};

verus! {

/// A dense matrix: one contiguous row-major buffer of `row * col` elements.
/// It carries no algorithms of its own; the multiply strategies and the
/// threaded-path records below work on it.
pub struct Matrix {
    pub data: Vec<i64>,
    pub row: usize,
    pub col: usize,
}

impl Matrix {
    /// The row-major layout invariant: the buffer holds exactly `row * col`
    /// elements.
    pub open spec fn wf(self) -> bool {
        self.data@.len() == self.row * self.col
    }

    /// Row `i` of the buffer, as a sequence.
    pub open spec fn spec_row(self, i: int) -> Seq<i64> {
        self.data@.subrange(i * self.col, (i + 1) * self.col)
    }

    /// Column `j` of the buffer, as a sequence: the strided gather that
    /// starts at offset `j` and steps by `col`.
    pub open spec fn spec_col(self, j: int) -> Seq<i64> {
        Seq::new(self.row as nat, |k: int| self.data@[k * self.col + j])
    }

    pub fn new(data: Vec<i64>, row: usize, col: usize) -> (m: Matrix)
        requires
            data@.len() == row * col,
        ensures
            m.data@ == data@,
            m.row == row,
            m.col == col,
            m.wf(),
    {
        Matrix { data, row, col }
    }
}

/// The `(i, j)` cell of the product `a * b`: the dot product of row `i` of
/// `a` and column `j` of `b`, as a mathematical integer.
pub open spec fn spec_cell(a: Matrix, b: Matrix, i: int, j: int) -> int {
    spec_dot(a.spec_row(i), b.spec_col(j))
}

/// Every cell's reduction stays inside the `i64` range, so no multiply
/// strategy can overflow.
pub open spec fn mul_fits(a: Matrix, b: Matrix) -> bool {
    forall|i: int, j: int|
        0 <= i < a.row && 0 <= j < b.col ==> dot_fits(
            #[trigger] a.spec_row(i),
            #[trigger] b.spec_col(j),
        )
}

/// Row-major cell indices grow with the cell's enumeration order: the cell
/// `(i2, j2)` comes strictly before `(i, j)` in the flat buffer.
pub(crate) proof fn lemma_cell_index_lt(i2: int, j2: int, i: int, j: int, c: int)
    requires
        0 <= j2 < c,
        0 <= i2,
        0 <= j,
        i2 < i || (i2 == i && j2 < j),
    ensures
        i2 * c + j2 < i * c + j,
{
    if i2 < i {
        assert(i2 * c + j2 < i * c + j) by (nonlinear_arith)
            requires
                i2 < i,
                0 <= j2 < c,
                0 <= j,
        ;
    }
}

/// Copy row `i` out of a row-major buffer.
pub fn extract_row(m: &Matrix, i: usize) -> (r: Vec<i64>)
    requires
        m.wf(),
        i < m.row,
    ensures
        r@ == m.spec_row(i as int),
        r@.len() == m.col,
{
    let n: usize = m.data.len();
    proof {
        assert(i as int * m.col as int + m.col as int <= n as int) by (nonlinear_arith)
            requires
                0 <= i as int,
                i as int + 1 <= m.row as int,
                0 <= m.col as int,
                n as int == m.row as int * m.col as int,
        ;
    }
    let start: usize = i * m.col;
    let mut r: Vec<i64> = Vec::new();
    let mut k: usize = 0;
    while k < m.col
        invariant
            n == m.data@.len(),
            start == i as int * m.col as int,
            start + m.col <= n,
            k <= m.col,
            r@.len() == k,
            forall|t: int| 0 <= t < k ==> r@[t] == m.data@[start + t],
        decreases m.col - k,
    {
        r.push(m.data[start + k]);
        k = k + 1;
    }
    proof {
        assert((i as int + 1) * m.col as int == i as int * m.col as int + m.col as int)
            by (nonlinear_arith);
        assert(r@ =~= m.spec_row(i as int));
    }
    r
}

/// Gather column `j` out of a row-major buffer: start at offset `j`, step by
/// the column count, take one element per row.
pub fn extract_column(m: &Matrix, j: usize) -> (r: Vec<i64>)
    requires
        m.wf(),
        j < m.col,
    ensures
        r@ == m.spec_col(j as int),
        r@.len() == m.row,
{
    let n: usize = m.data.len();
    let mut r: Vec<i64> = Vec::new();
    let mut k: usize = 0;
    while k < m.row
        invariant
            m.wf(),
            n == m.data@.len(),
            j < m.col,
            k <= m.row,
            r@.len() == k,
            forall|t: int| 0 <= t < k ==> r@[t] == m.data@[t * m.col + j],
        decreases m.row - k,
    {
        proof {
            assert((k as int * m.col as int + j as int) < n as int) by (nonlinear_arith)
                requires
                    0 <= k as int,
                    (k as int) < m.row as int,
                    0 <= j as int,
                    (j as int) < m.col as int,
                    n as int == m.row as int * m.col as int,
            ;
        }
        let idx: usize = k * m.col + j;
        r.push(m.data[idx]);
        k = k + 1;
    }
    proof {
        assert(r@ =~= m.spec_col(j as int));
    }
    r
}

/// Scalar reference multiply: validates the inner dimensions up front and
/// rejects a mismatch with `MatMulError::Dimension` before any computation;
/// on success returns the new `a.row x b.col` matrix whose `(i, j)` cell is
/// the dot product of row `i` of `a` and column `j` of `b`. The inputs are
/// only read, never modified.
pub fn multiply(a: &Matrix, b: &Matrix) -> (r: Result<Matrix, MatMulError>)
    requires
        a.wf(),
        b.wf(),
        a.col == b.row ==> mul_fits(*a, *b),
        a.col == b.row ==> a.row * b.col <= usize::MAX,
    ensures
        match r {
            Ok(m) => {
                &&& a.col == b.row
                &&& m.wf()
                &&& m.row == a.row
                &&& m.col == b.col
                &&& forall|i: int, j: int|
                    0 <= i < a.row && 0 <= j < b.col ==> m.data@[i * b.col as int + j]
                        == #[trigger] spec_cell(*a, *b, i, j)
            },
            Err(e) => a.col != b.row && e == MatMulError::Dimension,
        },
{
    if a.col != b.row {
        return Err(MatMulError::Dimension);
    }
    let mut data: Vec<i64> = Vec::new();
    let mut i: usize = 0;
    while i < a.row
        invariant
            a.wf(),
            b.wf(),
            a.col == b.row,
            mul_fits(*a, *b),
            a.row * b.col <= usize::MAX,
            i <= a.row,
            data@.len() == i as int * b.col as int,
            forall|i2: int, j2: int|
                0 <= i2 < i && 0 <= j2 < b.col ==> data@[i2 * b.col as int + j2]
                    == #[trigger] spec_cell(*a, *b, i2, j2),
        decreases a.row - i,
    {
        let mut j: usize = 0;
        while j < b.col
            invariant
                a.wf(),
                b.wf(),
                a.col == b.row,
                mul_fits(*a, *b),
                a.row * b.col <= usize::MAX,
                i < a.row,
                j <= b.col,
                data@.len() == i as int * b.col as int + j as int,
                forall|i2: int, j2: int|
                    0 <= i2 < i && 0 <= j2 < b.col ==> data@[i2 * b.col as int + j2]
                        == #[trigger] spec_cell(*a, *b, i2, j2),
                forall|j2: int|
                    0 <= j2 < j ==> data@[i as int * b.col as int + j2] == #[trigger] spec_cell(
                        *a,
                        *b,
                        i as int,
                        j2,
                    ),
            decreases b.col - j,
        {
            let v1 = Vector::new(extract_row(a, i));
            let v2 = Vector::new(extract_column(b, j));
            let v = dot_kernel(&v1, &v2);
            data.push(v);
            proof {
                assert forall|i2: int, j2: int|
                    0 <= i2 < i && 0 <= j2 < b.col implies data@[i2 * b.col as int + j2]
                    == spec_cell(*a, *b, i2, j2) by {
                    lemma_cell_index_lt(i2, j2, i as int, j as int, b.col as int);
                }
                assert forall|j2: int| 0 <= j2 < j + 1 implies data@[i as int * b.col as int + j2]
                    == spec_cell(*a, *b, i as int, j2) by {
                    if j2 < j {
                        lemma_cell_index_lt(i as int, j2, i as int, j as int, b.col as int);
                    }
                }
            }
            j = j + 1;
        }
        proof {
            assert((i as int + 1) * b.col as int == i as int * b.col as int + b.col as int)
                by (nonlinear_arith);
        }
        i = i + 1;
    }
    Ok(Matrix::new(data, a.row, b.col))
}

/// A work item of the threaded path: the destination cell index in the flat
/// output buffer, plus the copied row and the gathered column it is reduced
/// from. Ownership moves to exactly one worker.
pub struct MsgInput {
    pub idx: usize,
    pub row: Vector,
    pub col: Vector,
}

impl MsgInput {
    pub fn new(idx: usize, row: Vector, col: Vector) -> (m: MsgInput)
        ensures
            m.idx == idx,
            m.row@ == row@,
            m.col@ == col@,
    {
        MsgInput { idx, row, col }
    }
}

/// A result record of the threaded path: the destination cell index paired
/// with the computed scalar. Produced by exactly one worker, consumed by
/// exactly one collector.
#[derive(Clone, Copy, Debug, PartialEq, Eq, Structural)]
pub struct MsgOutput {
    pub idx: usize,
    pub value: i64,
}

/// Enumerate every output cell of `a * b` in row-major order and build its
/// work item: item `k` carries destination index `k`, row `k / b.col` of `a`
/// and column `k % b.col` of `b`.
pub fn build_work_items(a: &Matrix, b: &Matrix) -> (items: Vec<MsgInput>)
    requires
        a.wf(),
        b.wf(),
        a.col == b.row,
        a.row * b.col <= usize::MAX,
    ensures
        items@.len() == a.row * b.col,
        forall|k: int|
            0 <= k < items@.len() ==> {
                &&& (#[trigger] items@[k]).idx == k
                &&& items@[k].row@ == a.spec_row(k / (b.col as int))
                &&& items@[k].col@ == b.spec_col(k % (b.col as int))
            },
{
    let mut items: Vec<MsgInput> = Vec::new();
    let mut i: usize = 0;
    while i < a.row
        invariant
            a.wf(),
            b.wf(),
            a.col == b.row,
            a.row * b.col <= usize::MAX,
            i <= a.row,
            items@.len() == i as int * b.col as int,
            forall|k: int|
                0 <= k < items@.len() ==> {
                    &&& (#[trigger] items@[k]).idx == k
                    &&& items@[k].row@ == a.spec_row(k / (b.col as int))
                    &&& items@[k].col@ == b.spec_col(k % (b.col as int))
                },
        decreases a.row - i,
    {
        let mut j: usize = 0;
        while j < b.col
            invariant
                a.wf(),
                b.wf(),
                a.col == b.row,
                a.row * b.col <= usize::MAX,
                i < a.row,
                j <= b.col,
                items@.len() == i as int * b.col as int + j as int,
                forall|k: int|
                    0 <= k < items@.len() ==> {
                        &&& (#[trigger] items@[k]).idx == k
                        &&& items@[k].row@ == a.spec_row(k / (b.col as int))
                        &&& items@[k].col@ == b.spec_col(k % (b.col as int))
                    },
            decreases b.col - j,
        {
            let idx: usize = items.len();
            let row = Vector::new(extract_row(a, i));
            let col = Vector::new(extract_column(b, j));
            items.push(MsgInput::new(idx, row, col));
            proof {
                lemma_fundamental_div_mod_converse(
                    i as int * b.col as int + j as int,
                    b.col as int,
                    i as int,
                    j as int,
                );
            }
            j = j + 1;
        }
        proof {
            assert((i as int + 1) * b.col as int == i as int * b.col as int + b.col as int)
                by (nonlinear_arith);
        }
        i = i + 1;
    }
    items
}

/// Worker-side computation: reduce one work item to its result record. The
/// destination index is carried through unchanged; a row/column length
/// mismatch is rejected with `MatMulError::Reduction`.
pub fn compute_cell(input: MsgInput) -> (r: Result<MsgOutput, MatMulError>)
    requires
        input.row@.len() == input.col@.len() ==> dot_fits(input.row@, input.col@),
    ensures
        match r {
            Ok(o) => {
                &&& input.row@.len() == input.col@.len()
                &&& o.idx == input.idx
                &&& o.value == spec_dot(input.row@, input.col@)
            },
            Err(e) => input.row@.len() != input.col@.len() && e == MatMulError::Reduction,
        },
{
    match dot_product(&input.row, &input.col) {
        Ok(v) => Ok(MsgOutput { idx: input.idx, value: v }),
        Err(e) => Err(e),
    }
}

/// Collector-side write of one result record into the output buffer: the
/// record's value lands at its destination index and nothing else moves. A
/// destination outside the buffer is a protocol violation and is rejected
/// with `MatMulError::Dispatch`, leaving the buffer untouched.
pub fn apply_output(m: &mut Matrix, out: MsgOutput) -> (r: Result<(), MatMulError>)
    ensures
        final(m).row == old(m).row,
        final(m).col == old(m).col,
        match r {
            Ok(_) => out.idx < old(m).data@.len() && final(m).data@ == old(m).data@.update(
                out.idx as int,
                out.value,
            ),
            Err(e) => {
                &&& out.idx >= old(m).data@.len()
                &&& e == MatMulError::Dispatch
                &&& final(m).data@ == old(m).data@
            },
        },
{
    if out.idx < m.data.len() {
        m.data.set(out.idx, out.value);
        Ok(())
    } else {
        Err(MatMulError::Dispatch)
    }
}

} // verus!
