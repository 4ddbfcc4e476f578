//! The conditions that the pipeline reports.

use vstd::prelude::*;

verus! {

/// A condition that an operation of the pipeline reports to its caller.
#[derive(Clone, Copy, PartialEq, Eq, Structural, Debug)]
pub enum Error {
    /// A spawn met a task kind that already has an instance outstanding. The
    /// request is dropped; the next edge starts the chain again.
    SchedulingRejected,
    /// A hardware resource that startup needs could not be claimed.
    PeripheralUnavailable,
    /// The system has halted and will not dispatch again.
    UnrecoverableFault,
}

} // verus!
