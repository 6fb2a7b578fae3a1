//! The device: which of its answers carry a snapshot.
use vstd::prelude::*;
use crate::error::PipelineError;

verus! {

/// Whether an HTTP status reports success: the statuses from 200 to 299.
pub open spec fn is_success(status: u16) -> bool {
    200 <= status <= 299
}

/// Accepts the answer of the device by its status. Any status that is no
/// success is a transport failure that carries the status.
pub fn check_status(status: u16) -> (outcome: Result<(), PipelineError>)
    ensures
        is_success(status) ==> outcome is Ok,
        !is_success(status) ==> outcome == Err::<(), PipelineError>(
            PipelineError::Transport { status: Some(status) },
        ),
{
    if 200 <= status && status <= 299 {
        Ok(())
    } else {
        Err(PipelineError::Transport { status: Some(status) })
    }
}

} // verus!
