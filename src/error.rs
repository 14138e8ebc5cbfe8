//! Failures that the distance pipeline reports to its caller.

use vstd::prelude::*;

verus! {

/// Why a distance computation could not be carried out.
#[derive(Debug, Clone, Copy, PartialEq, Eq, Structural)]
pub enum LevenshteinError {
    /// The word at `index` has more characters than the padding bound.
    WordTooLong { index: usize },
    /// No compatible compute device could be acquired.
    DeviceUnavailable,
    /// The kernel could not be compiled into a pipeline.
    PipelineCompilationFailed,
    /// The batch holds more words than the session was sized for.
    CapacityExceeded { requested: usize, capacity: usize },
    /// The device failed while running the batch or mapping its result.
    TransferFailed,
}

} // verus!
