//! Errors surfaced by processors, sinks and batch kernels.

use vstd::prelude::*;

verus! {

/// A failure that aborts the pipeline run in which it is raised.
#[derive(Debug, Clone, PartialEq, Eq)]
pub enum ErrorCode {
    /// A collaborator was not in the state the caller relies on.
    UnexpectedError(&'static str),
    /// An operation that needs at least one batch was given none.
    EmptyData(&'static str),
    /// Batches that must share a schema do not.
    DataStructMissMatch(&'static str),
}

impl ErrorCode {
    /// The text that was attached when the error was raised.
    pub fn message(&self) -> (r: &'static str)
        ensures
            r == match *self {
                ErrorCode::UnexpectedError(m) => m,
                ErrorCode::EmptyData(m) => m,
                ErrorCode::DataStructMissMatch(m) => m,
            },
    {
        match self {
            ErrorCode::UnexpectedError(m) => m,
            ErrorCode::EmptyData(m) => m,
            ErrorCode::DataStructMissMatch(m) => m,
        }
    }
}

} // verus!
