use sensor_monitor::data::store::LocalStore;
use sensor_monitor::error::{PipelineError, StorageFault};
use sensor_monitor::model::binary32::Binary32;
use sensor_monitor::model::sensor_data::ESP32SensorData;
use sensor_monitor::worker::sensor_data_worker::{fetch_and_process_data, WORKER_INTERVAL_SECS};

fn snapshot(timestamp: i64) -> ESP32SensorData {
    let number = |x: f32| Binary32::from_bits(x.to_bits());
    ESP32SensorData {
        temperature: number(5.0),
        humidity: number(50.0),
        water_level: number(30.0),
        ph: number(7.0),
        salinity: number(10.0),
        rain: true,
        soil_moisture: number(40.0),
        timestamp,
    }
}

#[test]
fn the_worker_runs_every_quarter_of_an_hour() {
    assert_eq!(WORKER_INTERVAL_SECS, 900);
}

#[test]
fn a_cycle_stores_what_the_device_returned() {
    let mut store = LocalStore::new();
    assert_eq!(fetch_and_process_data(&mut store, Ok(snapshot(1_000))), Ok(()));
    let rows = store.readings();
    assert_eq!(rows.len(), 7);
    assert!(rows[0].is_alert);
    assert_eq!(rows[5].sensor_type, "rain");
    assert_eq!(f32::from_bits(rows[5].value.to_bits()), 1.0);
    assert!(!rows[5].is_alert);
}

#[test]
fn a_cycle_whose_fetch_failed_leaves_the_store_alone() {
    let mut store = LocalStore::new();
    for error in [
        PipelineError::Transport { status: Some(500) },
        PipelineError::Transport { status: None },
        PipelineError::Decode,
        PipelineError::Config,
    ] {
        assert_eq!(fetch_and_process_data(&mut store, Err(error)), Err(error));
    }
    assert_eq!(store.readings().len(), 0);
    assert_eq!(store.thresholds().len(), 0);
    assert_eq!(store.last_id(), 0);
}

#[test]
fn a_failed_cycle_does_not_keep_the_next_from_its_work() {
    let mut store = LocalStore::new();
    assert!(fetch_and_process_data(&mut store, Err(PipelineError::Decode)).is_err());
    assert_eq!(fetch_and_process_data(&mut store, Ok(snapshot(1))), Ok(()));
    assert!(fetch_and_process_data(&mut store, Err(PipelineError::Decode)).is_err());
    assert_eq!(fetch_and_process_data(&mut store, Ok(snapshot(2))), Ok(()));
    assert_eq!(store.readings().len(), 14);
}

#[test]
fn a_cycle_without_room_fails_with_a_storage_error() {
    let mut store = LocalStore::restore(vec![], vec![], i64::MAX - 1).unwrap();
    assert_eq!(
        fetch_and_process_data(&mut store, Ok(snapshot(1))),
        Err(PipelineError::Storage(StorageFault::IdSpaceExhausted))
    );
    assert_eq!(store.readings().len(), 0);
}
