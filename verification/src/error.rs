use vstd::prelude::*;

verus! {

/// The error kinds of the multiply entry points.
///
/// Every error aborts the single multiply call cleanly; none is retried or
/// suppressed, and a failed call never hands back a partial result.
#[derive(Clone, Copy, Debug, PartialEq, Eq, Structural)]
pub enum MatMulError {
    /// The inner dimensions of the two operands disagree (`a.col != b.row`);
    /// reported before any computation starts.
    Dimension,
    /// The operand sequence lengths disagree at the dot-product level.
    Reduction,
    /// A threaded-path communication failure: a work item or a result record
    /// could not be delivered.
    Dispatch,
}

} // verus!
