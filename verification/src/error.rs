//! The ways in which the pipeline fails.
use vstd::prelude::*;

verus! {

/// Why the local store refused a row.
#[derive(Clone, Copy, Debug, PartialEq, Eq)]
pub enum StorageFault {
    /// The row names a sensor type outside the closed set.
    UnknownSensorType,
    /// No identifier is left for the row.
    IdSpaceExhausted,
}

/// A failure of one step of the pipeline, by its kind.
#[derive(Clone, Copy, Debug, PartialEq, Eq)]
pub enum PipelineError {
    /// The network failed, or the peer answered with a status that is no
    /// success; the status is kept where there was one.
    Transport { status: Option<u16> },
    /// The payload was malformed.
    Decode,
    /// The local store failed.
    Storage(StorageFault),
    /// A component was not set up, or was set up wrongly.
    Config,
}

} // verus!
