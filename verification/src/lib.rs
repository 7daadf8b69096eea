//! Dense matrix multiplication with verified contracts: a scalar reference
//! algorithm over row-major `i64` matrices, plus the data model and the
//! per-cell work of a thread-parallel variant — work-item construction,
//! worker-side reduction, and race-free collection into the output buffer.
//! The laws module proves the identity laws and the order-invariance of the
//! collection step.

mod error;
mod laws;
mod matrix;
mod vector;

pub use error::MatMulError;
pub use laws::{
    distinct_indices, is_identity, lemma_apply_outputs_order_invariant,
    lemma_apply_outputs_pointwise, lemma_identity_times_matrix, lemma_matrix_times_identity,
    lemma_pipeline_matches_scalar, spec_apply_outputs,
};
pub use matrix::{
    apply_output, build_work_items, compute_cell, extract_column, extract_row, multiply, Matrix,
    MsgInput, MsgOutput,
};
pub use vector::{dot_fits_checked, dot_product, Vector};
