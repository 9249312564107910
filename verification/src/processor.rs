//! What a scheduler observes of a processor.

use vstd::prelude::*;

verus! {

/// The state a processor reports when polled; the scheduler runs at most one
/// operation of the processor for each report.
#[derive(Debug, Clone, Copy, PartialEq, Eq, Structural)]
pub enum ProcessorState {
    /// The processor holds nothing to work on and waits for its input port.
    NeedData,
    /// The processor holds work that one call of its processing step performs.
    Ready,
    /// The input has ended and the processor has done all it will ever do.
    Finished,
}

} // verus!
