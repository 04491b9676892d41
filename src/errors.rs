use vstd::prelude::*;

verus! {

/// Failures of the destination column writers.
#[derive(Debug, PartialEq, Eq, Structural)]
pub enum ConnectorXPythonError {
    /// An absent value was written to a column that has no validity mask.
    NullInNonNullable,
    /// A writer was finalized before every one of its rows was written.
    FinalizeIncomplete,
    /// The allocation lock of the foreign object heap is poisoned.
    AllocLockPoisoned,
    /// A block's buffers do not have the shape that it declares.
    ShapeMismatch,
}

} // verus!
