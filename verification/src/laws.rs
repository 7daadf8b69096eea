use vstd::prelude::*;

use vstd::arithmetic::div_mod::lemma_fundamental_div_mod_converse;

use crate::matrix::{lemma_cell_index_lt, spec_cell, Matrix, MsgInput, MsgOutput};
use crate::vector::{
    lemma_dot_prefix_one_hot_left, lemma_dot_prefix_one_hot_right, spec_dot,
};

verus! {

/// `m` is the square identity matrix: a row-major `n x n` buffer whose
/// entries are one exactly on the diagonal and zero elsewhere.
pub open spec fn is_identity(m: Matrix) -> bool {
    &&& m.wf()
    &&& m.row == m.col
    &&& forall|p: int|
        0 <= p < m.data@.len() ==> #[trigger] m.data@[p] == (if p / (m.col as int) == p % (
        m.col as int) {
            1i64
        } else {
            0i64
        })
}

/// Identity law, left side: for a square identity `id` and a compatible `m`,
/// every cell of the product `id * m` equals the corresponding entry of `m`,
/// so multiplying by the identity on the left returns `m` unchanged.
pub proof fn lemma_identity_times_matrix(id: Matrix, m: Matrix)
    requires
        is_identity(id),
        m.wf(),
        id.col == m.row,
    ensures
        forall|i: int, j: int|
            0 <= i < id.row && 0 <= j < m.col ==> #[trigger] spec_cell(id, m, i, j) == m.data@[i
                * m.col as int + j],
{
    assert forall|i: int, j: int| 0 <= i < id.row && 0 <= j < m.col implies #[trigger] spec_cell(
        id,
        m,
        i,
        j,
    ) == m.data@[i * m.col as int + j] by {
        let n = id.col as int;
        let r = id.spec_row(i);
        let c = m.spec_col(j);
        assert((i + 1) * n == i * n + n) by (nonlinear_arith);
        assert(i * n + n <= id.data@.len()) by (nonlinear_arith)
            requires
                0 <= i,
                i + 1 <= n,
                id.data@.len() == n * n,
        ;
        assert(r.len() == n);
        assert forall|t: int| 0 <= t < n implies r[t] == (if t == i {
            1i64
        } else {
            0i64
        }) by {
            lemma_cell_index_lt(i, t, n, 0, n);
            lemma_fundamental_div_mod_converse(i * n + t, n, i, t);
        }
        lemma_dot_prefix_one_hot_left(r, c, i, r.len() as int);
        assert(c[i] == m.data@[i * m.col as int + j]);
    }
}

/// Identity law, right side: for a compatible `m` and a square identity
/// `id`, every cell of the product `m * id` equals the corresponding entry
/// of `m`, so multiplying by the identity on the right returns `m`
/// unchanged.
pub proof fn lemma_matrix_times_identity(m: Matrix, id: Matrix)
    requires
        m.wf(),
        is_identity(id),
        m.col == id.row,
    ensures
        forall|i: int, j: int|
            0 <= i < m.row && 0 <= j < id.col ==> #[trigger] spec_cell(m, id, i, j) == m.data@[i
                * m.col as int + j],
{
    assert forall|i: int, j: int| 0 <= i < m.row && 0 <= j < id.col implies #[trigger] spec_cell(
        m,
        id,
        i,
        j,
    ) == m.data@[i * m.col as int + j] by {
        let n = id.col as int;
        let r = m.spec_row(i);
        let c = id.spec_col(j);
        assert((i + 1) * n == i * n + n) by (nonlinear_arith);
        assert(i * n + n <= m.data@.len()) by (nonlinear_arith)
            requires
                0 <= i,
                i + 1 <= m.row as int,
                m.data@.len() == m.row as int * n,
        ;
        assert(r.len() == n);
        assert forall|t: int| 0 <= t < n implies c[t] == (if t == j {
            1i64
        } else {
            0i64
        }) by {
            lemma_cell_index_lt(t, j, n, 0, n);
            lemma_fundamental_div_mod_converse(t * n + j, n, t, j);
        }
        lemma_dot_prefix_one_hot_right(r, c, j, r.len() as int);
        assert(r[j] == m.data@[i * m.col as int + j]);
    }
}

/// Whether no two result records share a destination index. The threaded
/// dispatcher guarantees this by giving each work item its own output cell.
pub open spec fn distinct_indices(outs: Seq<MsgOutput>) -> bool {
    forall|k1: int, k2: int|
        0 <= k1 < outs.len() && 0 <= k2 < outs.len() && k1 != k2 ==> (#[trigger] outs[k1]).idx != (
        #[trigger] outs[k2]).idx
}

/// The output buffer after the result records in `outs` are written in
/// order: each record lands at its destination index, later records after
/// earlier ones; a record aimed outside the buffer changes nothing.
pub open spec fn spec_apply_outputs(data: Seq<i64>, outs: Seq<MsgOutput>) -> Seq<i64>
    decreases outs.len(),
{
    if outs.len() == 0 {
        data
    } else {
        let prev = spec_apply_outputs(data, outs.drop_last());
        let o = outs.last();
        if o.idx < prev.len() {
            prev.update(o.idx as int, o.value)
        } else {
            prev
        }
    }
}

/// Writing result records with pairwise-distinct destinations is order-free:
/// afterwards, each in-range destination holds its record's value, and a
/// cell no record aimed at keeps its initial value.
pub proof fn lemma_apply_outputs_pointwise(data: Seq<i64>, outs: Seq<MsgOutput>)
    requires
        distinct_indices(outs),
    ensures
        spec_apply_outputs(data, outs).len() == data.len(),
        forall|k: int|
            0 <= k < outs.len() && (#[trigger] outs[k]).idx < data.len() ==> spec_apply_outputs(
                data,
                outs,
            )[outs[k].idx as int] == outs[k].value,
        forall|p: int|
            0 <= p < data.len() && (forall|k: int|
                0 <= k < outs.len() ==> (#[trigger] outs[k]).idx != p) ==> spec_apply_outputs(
                data,
                outs,
            )[p] == data[p],
    decreases outs.len(),
{
    if outs.len() > 0 {
        let outs0 = outs.drop_last();
        let o = outs.last();
        assert forall|k1: int, k2: int|
            0 <= k1 < outs0.len() && 0 <= k2 < outs0.len() && k1 != k2 implies (outs0[k1]).idx != (
        outs0[k2]).idx by {
            assert(outs0[k1] == outs[k1]);
            assert(outs0[k2] == outs[k2]);
        }
        lemma_apply_outputs_pointwise(data, outs0);
        let prev = spec_apply_outputs(data, outs0);
        assert forall|k: int|
            0 <= k < outs.len() && (outs[k]).idx < data.len() implies spec_apply_outputs(
            data,
            outs,
        )[outs[k].idx as int] == outs[k].value by {
            if k < outs.len() - 1 {
                assert(outs0[k] == outs[k]);
                assert(o.idx != outs[k].idx);
            }
        }
        assert forall|p: int|
            0 <= p < data.len() && (forall|k: int|
                0 <= k < outs.len() ==> (#[trigger] outs[k]).idx != p) implies spec_apply_outputs(
            data,
            outs,
        )[p] == data[p] by {
            assert(forall|k: int| 0 <= k < outs0.len() ==> (#[trigger] outs0[k]).idx != p);
        }
    }
}

/// Thread-count invariance of the collection step: two arrival orders of the
/// same result records assemble the same buffer. The records a multiply
/// produces are a function of the work items alone, so a run with one worker
/// and a run with ten differ only in arrival order, which this law shows is
/// immaterial.
pub proof fn lemma_apply_outputs_order_invariant(
    data: Seq<i64>,
    outs1: Seq<MsgOutput>,
    outs2: Seq<MsgOutput>,
)
    requires
        distinct_indices(outs1),
        distinct_indices(outs2),
        outs1.to_multiset() == outs2.to_multiset(),
    ensures
        spec_apply_outputs(data, outs1) == spec_apply_outputs(data, outs2),
{
    broadcast use vstd::seq_lib::to_multiset_contains;

    lemma_apply_outputs_pointwise(data, outs1);
    lemma_apply_outputs_pointwise(data, outs2);
    let r1 = spec_apply_outputs(data, outs1);
    let r2 = spec_apply_outputs(data, outs2);
    assert forall|p: int| 0 <= p < data.len() implies r1[p] == r2[p] by {
        if exists|k: int| 0 <= k < outs1.len() && (#[trigger] outs1[k]).idx == p {
            let k = choose|k: int| 0 <= k < outs1.len() && (#[trigger] outs1[k]).idx == p;
            let o = outs1[k];
            assert(outs1.contains(o));
            assert(outs1.to_multiset().count(o) > 0);
            assert(outs2.to_multiset().count(o) > 0);
            assert(outs2.contains(o));
            let k2 = choose|k2: int| 0 <= k2 < outs2.len() && outs2[k2] == o;
            assert(r1[p] == o.value);
            assert(r2[p] == o.value);
        } else {
            assert forall|k2: int| 0 <= k2 < outs2.len() implies (#[trigger] outs2[k2]).idx
                != p by {
                let o2 = outs2[k2];
                assert(outs2.contains(o2));
                assert(outs2.to_multiset().count(o2) > 0);
                assert(outs1.to_multiset().count(o2) > 0);
                assert(outs1.contains(o2));
                let k1 = choose|k1: int| 0 <= k1 < outs1.len() && outs1[k1] == o2;
                assert((outs1[k1]).idx != p);
            }
            assert(r1[p] == data[p]);
            assert(r2[p] == data[p]);
        }
    }
    assert(r1 =~= r2);
}

/// The threaded pipeline computes the scalar product: when the work items
/// are the ones built for `a * b`, and each result record carries its item's
/// destination and the dot product of its row and column, then collecting
/// the records into any buffer of the right length yields exactly the cells
/// the scalar multiply produces.
pub proof fn lemma_pipeline_matches_scalar(
    a: Matrix,
    b: Matrix,
    items: Seq<MsgInput>,
    outs: Seq<MsgOutput>,
    init: Seq<i64>,
)
    requires
        a.wf(),
        b.wf(),
        a.col == b.row,
        init.len() == a.row * b.col,
        items.len() == a.row * b.col,
        forall|k: int|
            0 <= k < items.len() ==> {
                &&& (#[trigger] items[k]).idx == k
                &&& items[k].row@ == a.spec_row(k / (b.col as int))
                &&& items[k].col@ == b.spec_col(k % (b.col as int))
            },
        outs.len() == items.len(),
        forall|k: int|
            0 <= k < outs.len() ==> {
                &&& (#[trigger] outs[k]).idx == items[k].idx
                &&& outs[k].value == spec_dot(items[k].row@, items[k].col@)
            },
    ensures
        spec_apply_outputs(init, outs).len() == a.row * b.col,
        forall|i: int, j: int|
            0 <= i < a.row && 0 <= j < b.col ==> spec_apply_outputs(init, outs)[i * b.col as int
                + j] == #[trigger] spec_cell(a, b, i, j),
{
    assert forall|k1: int, k2: int|
        0 <= k1 < outs.len() && 0 <= k2 < outs.len() && k1 != k2 implies (outs[k1]).idx != (
    outs[k2]).idx by {}
    lemma_apply_outputs_pointwise(init, outs);
    assert forall|i: int, j: int| 0 <= i < a.row && 0 <= j < b.col implies spec_apply_outputs(
        init,
        outs,
    )[i * b.col as int + j] == spec_cell(a, b, i, j) by {
        let c = b.col as int;
        let k = i * c + j;
        lemma_cell_index_lt(i, j, a.row as int, 0, c);
        assert(0 <= i * c) by (nonlinear_arith)
            requires
                0 <= i,
                0 <= c,
        ;
        lemma_fundamental_div_mod_converse(k, c, i, j);
        assert(spec_apply_outputs(init, outs)[outs[k].idx as int] == outs[k].value);
    }
}

} // verus!
