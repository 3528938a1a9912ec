//! What can go wrong in a run, and which of it ends the run.

use vstd::prelude::*;

verus! {

/// The ways in which a run, or one step of it, can fail.
#[derive(Clone, Copy, Debug, PartialEq, Eq, Structural)]
pub enum PipelineError {
    /// The root does not exist or is not a directory.
    BadRoot,
    /// One directory entry could not be read.
    WalkEntryFailed,
    /// One file could not be opened or read while it was hashed.
    HashIoFailed,
    /// The store refused a statement of the insert transaction.
    StoreInsertFailed,
    /// The copy on disk could not be written.
    SnapshotFailed,
}

/// Whether an error ends the run. An entry that cannot be read and a file
/// that cannot be hashed are counted and passed over; everything else is
/// fatal.
pub open spec fn is_fatal(error: PipelineError) -> bool {
    error != PipelineError::WalkEntryFailed && error != PipelineError::HashIoFailed
}

impl PipelineError {
    /// Decides whether this error ends the run.
    pub fn fatal(&self) -> (yes: bool)
        ensures
            yes == is_fatal(*self),
    {
        match self {
            PipelineError::WalkEntryFailed | PipelineError::HashIoFailed => false,
            PipelineError::BadRoot
            | PipelineError::StoreInsertFailed
            | PipelineError::SnapshotFailed => true,
        }
    }
}

} // verus!
