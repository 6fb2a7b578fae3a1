//! One cycle of the worker: what is done with what the device returned.
use vstd::prelude::*;
use crate::data::store::LocalStore;
use crate::error::{PipelineError, StorageFault};
use crate::model::sensor_data::ESP32SensorData;
use crate::repository::sensor_repository::{has_room, ingestion, process_esp32_data};

verus! {

/// The seconds between two cycles of the worker: a quarter of an hour.
pub const WORKER_INTERVAL_SECS: u64 = 15 * 60;

/// One cycle: the snapshot that the device returned goes down the ingestion
/// path. Where the fetch failed, its failure is the outcome of the cycle and
/// the store stays as it was.
pub fn fetch_and_process_data(
    store: &mut LocalStore,
    fetched: Result<ESP32SensorData, PipelineError>,
) -> (outcome: Result<(), PipelineError>)
    requires
        old(store)@.valid(),
    ensures
        final(store)@.valid(),
        match fetched {
            Ok(data) => {
                &&& final(store)@ == ingestion(old(store)@, data)
                &&& has_room(old(store)@) ==> outcome is Ok
                &&& !has_room(old(store)@) ==> outcome == Err::<(), PipelineError>(
                    PipelineError::Storage(StorageFault::IdSpaceExhausted),
                )
            },
            Err(error) => final(store)@ == old(store)@ && outcome == Err::<(), PipelineError>(
                error,
            ),
        },
{
    match fetched {
        Ok(data) => process_esp32_data(store, &data),
        Err(error) => Err(error),
    }
}

} // verus!
