use sensor_monitor::data::dao::sensor_reading_dao::{get_latest_readings, insert};
use sensor_monitor::data::dao::sensor_threshold_dao;
use sensor_monitor::data::store::LocalStore;
use sensor_monitor::error::{PipelineError, StorageFault};
use sensor_monitor::model::binary32::Binary32;
use sensor_monitor::model::sensor_data::{ESP32SensorData, SensorReading, SensorThreshold};
use sensor_monitor::repository::sensor_repository::{
    check_thresholds, fetch_latest_readings, fetch_reading_history, get_threshold,
    process_esp32_data, set_threshold, BATCH_LEN,
};

fn number(x: f32) -> Binary32 {
    Binary32::from_bits(x.to_bits())
}

fn snapshot(temperature: f32, timestamp: i64) -> ESP32SensorData {
    ESP32SensorData {
        temperature: number(temperature),
        humidity: number(50.0),
        water_level: number(30.0),
        ph: number(7.0),
        salinity: number(10.0),
        rain: false,
        soil_moisture: number(40.0),
        timestamp,
    }
}

fn alert_of(store: &mut LocalStore, sensor_type: &str, value: f32) -> bool {
    let reading = SensorReading::new(sensor_type, number(value), 1, false);
    let checked = check_thresholds(store, vec![reading]);
    assert_eq!(checked.len(), 1);
    assert_eq!(checked[0].value.to_bits(), value.to_bits());
    checked[0].is_alert
}

fn types(rows: &[SensorReading]) -> Vec<&str> {
    rows.iter().map(|row| row.sensor_type.as_str()).collect()
}

const TYPES: [&str; 7] =
    ["temperature", "humidity", "water_level", "ph", "salinity", "rain", "soil_moisture"];

#[test]
fn a_value_on_a_bound_is_no_alert() {
    let mut store = LocalStore::new();
    assert!(!alert_of(&mut store, "temperature", 10.0));
    assert!(!alert_of(&mut store, "temperature", 40.0));
    assert!(!alert_of(&mut store, "rain", 0.0));
    assert!(!alert_of(&mut store, "rain", -0.0));
    assert!(!alert_of(&mut store, "rain", 1.0));
}

#[test]
fn a_value_outside_the_bounds_is_an_alert() {
    let mut store = LocalStore::new();
    assert!(alert_of(&mut store, "temperature", 9.999999));
    assert!(alert_of(&mut store, "temperature", 40.000004));
    assert!(alert_of(&mut store, "temperature", -40.0));
    assert!(alert_of(&mut store, "temperature", f32::INFINITY));
    assert!(alert_of(&mut store, "temperature", f32::NEG_INFINITY));
    assert!(alert_of(&mut store, "rain", -1.0e-45));
}

#[test]
fn a_value_between_the_bounds_is_no_alert() {
    let mut store = LocalStore::new();
    assert!(!alert_of(&mut store, "temperature", 10.000001));
    assert!(!alert_of(&mut store, "temperature", 25.0));
    assert!(!alert_of(&mut store, "temperature", 39.999996));
}

#[test]
fn a_value_that_is_no_number_is_no_alert() {
    let mut store = LocalStore::new();
    assert!(!alert_of(&mut store, "temperature", f32::NAN));
}

#[test]
fn alerts_follow_the_threshold_that_was_set() {
    let mut store = LocalStore::new();
    sensor_threshold_dao::set_threshold(
        &mut store,
        &SensorThreshold {
            sensor_type: "ph".to_string(),
            min_value: number(6.5),
            max_value: number(7.5),
        },
    );
    assert!(alert_of(&mut store, "ph", 6.0));
    assert!(!alert_of(&mut store, "ph", 6.5));
    assert!(!alert_of(&mut store, "ph", 7.5));
    assert!(alert_of(&mut store, "ph", 8.0));
}

#[test]
fn with_crossed_bounds_a_value_on_a_bound_is_an_alert() {
    let mut store = LocalStore::new();
    set_threshold(&mut store, "temperature", number(5.0));
    assert!(alert_of(&mut store, "temperature", 10.0));
    assert!(alert_of(&mut store, "temperature", 5.0));
}

#[test]
fn check_thresholds_keeps_everything_but_the_alert() {
    let mut store = LocalStore::new();
    let mut first = SensorReading::new("ph", number(12.0), 77, false);
    first.id = Some(4);
    let second = SensorReading::new("pressure", number(50.0), 78, true);
    let third = SensorReading::new("pressure", number(101.0), 79, false);
    let checked = check_thresholds(&mut store, vec![first, second, third]);
    assert_eq!(checked.len(), 3);
    assert_eq!(checked[0].id, Some(4));
    assert_eq!(checked[0].sensor_type, "ph");
    assert_eq!(checked[0].timestamp, 77);
    assert!(checked[0].is_alert);
    assert_eq!(checked[1].sensor_type, "pressure");
    assert!(!checked[1].is_alert);
    assert!(checked[2].is_alert);
    assert_eq!(store.readings().len(), 0);
    let stored: Vec<&str> =
        store.thresholds().iter().map(|row| row.sensor_type.as_str()).collect();
    assert_eq!(stored, vec!["ph", "pressure"]);
}

#[test]
fn a_hot_snapshot_raises_the_temperature_alert_only() {
    let mut store = LocalStore::new();
    let data = snapshot(45.0, 1_700_000_000_000);
    assert_eq!(process_esp32_data(&mut store, &data), Ok(()));
    let rows = store.readings();
    assert_eq!(rows.len(), 7);
    assert_eq!(types(rows), TYPES.to_vec());
    assert_eq!(f32::from_bits(rows[0].value.to_bits()), 45.0);
    assert!(rows[0].is_alert);
    assert_eq!(rows[1].sensor_type, "humidity");
    assert_eq!(f32::from_bits(rows[1].value.to_bits()), 50.0);
    assert!(!rows[1].is_alert);
    for row in &rows[1..] {
        assert!(!row.is_alert);
    }
    for (i, row) in rows.iter().enumerate() {
        assert_eq!(row.id, Some(i as i64 + 1));
        assert_eq!(row.timestamp, 1_700_000_000_000);
    }
    assert_eq!(f32::from_bits(rows[5].value.to_bits()), 0.0);
}

#[test]
fn processing_a_snapshot_stores_the_seven_default_thresholds() {
    let mut store = LocalStore::new();
    process_esp32_data(&mut store, &snapshot(20.0, 1)).unwrap();
    let stored: Vec<&str> =
        store.thresholds().iter().map(|row| row.sensor_type.as_str()).collect();
    assert_eq!(stored, TYPES.to_vec());
    process_esp32_data(&mut store, &snapshot(20.0, 2)).unwrap();
    assert_eq!(store.thresholds().len(), 7);
}

#[test]
fn processing_without_room_stores_no_reading_but_the_thresholds() {
    let mut store = LocalStore::restore(vec![], vec![], i64::MAX - 6).unwrap();
    assert_eq!(
        process_esp32_data(&mut store, &snapshot(20.0, 1)),
        Err(PipelineError::Storage(StorageFault::IdSpaceExhausted))
    );
    assert_eq!(store.readings().len(), 0);
    assert_eq!(store.last_id(), i64::MAX - 6);
    assert_eq!(store.thresholds().len(), 7);
}

#[test]
fn processing_with_just_enough_room_stores_the_seven() {
    let mut store = LocalStore::restore(vec![], vec![], i64::MAX - 7).unwrap();
    assert_eq!(process_esp32_data(&mut store, &snapshot(20.0, 1)), Ok(()));
    assert_eq!(store.readings().len(), 7);
    assert_eq!(store.last_id(), i64::MAX);
    assert_eq!(BATCH_LEN, 7);
}

#[test]
fn a_failed_remote_fetch_returns_what_the_store_holds() {
    let mut store = LocalStore::new();
    process_esp32_data(&mut store, &snapshot(45.0, 100)).unwrap();
    let before = get_latest_readings(&store);
    let thresholds_before = store.thresholds().len();
    let outcome =
        fetch_latest_readings(&mut store, Err(PipelineError::Transport { status: None }));
    let latest = outcome.unwrap();
    assert_eq!(latest.len(), 7);
    assert_eq!(types(&latest), types(&before));
    for (row, old) in latest.iter().zip(before.iter()) {
        assert_eq!(row.id, old.id);
        assert_eq!(row.value.to_bits(), old.value.to_bits());
        assert_eq!(row.timestamp, old.timestamp);
        assert_eq!(row.is_alert, old.is_alert);
    }
    assert_eq!(store.readings().len(), 7);
    assert_eq!(store.last_id(), 7);
    assert_eq!(store.thresholds().len(), thresholds_before);
}

#[test]
fn a_failed_remote_fetch_on_an_empty_store_returns_nothing() {
    let mut store = LocalStore::new();
    let outcome =
        fetch_latest_readings(&mut store, Err(PipelineError::Transport { status: Some(503) }));
    assert_eq!(outcome.unwrap().len(), 0);
    assert_eq!(store.readings().len(), 0);
    assert_eq!(store.thresholds().len(), 0);
}

#[test]
fn an_empty_remote_fetch_changes_nothing() {
    let mut store = LocalStore::new();
    insert(&mut store, &SensorReading::new("ph", number(7.0), 5, false)).unwrap();
    let latest = fetch_latest_readings(&mut store, Ok(vec![])).unwrap();
    assert_eq!(latest.len(), 1);
    assert_eq!(latest[0].id, Some(1));
    assert_eq!(store.readings().len(), 1);
    assert_eq!(store.thresholds().len(), 0);
}

#[test]
fn the_newest_remote_snapshot_is_ingested_and_no_other() {
    let mut store = LocalStore::new();
    let remote = vec![
        snapshot(11.0, 100),
        snapshot(45.0, 500),
        snapshot(12.0, 300),
        snapshot(13.0, 400),
        snapshot(14.0, 200),
    ];
    let latest = fetch_latest_readings(&mut store, Ok(remote)).unwrap();
    assert_eq!(store.readings().len(), 7);
    assert!(store.readings().iter().all(|row| row.timestamp == 500));
    assert_eq!(latest.len(), 7);
    assert_eq!(types(&latest), TYPES.to_vec());
    assert_eq!(f32::from_bits(latest[0].value.to_bits()), 45.0);
    assert!(latest[0].is_alert);
    assert!(latest[1..].iter().all(|row| !row.is_alert));
}

#[test]
fn of_remote_snapshots_of_one_time_the_first_is_ingested() {
    let mut store = LocalStore::new();
    let remote = vec![snapshot(11.0, 100), snapshot(21.0, 500), snapshot(22.0, 500)];
    fetch_latest_readings(&mut store, Ok(remote)).unwrap();
    assert_eq!(f32::from_bits(store.readings()[0].value.to_bits()), 21.0);
}

#[test]
fn the_latest_readings_show_the_state_after_the_write() {
    let mut store = LocalStore::new();
    process_esp32_data(&mut store, &snapshot(20.0, 1_000)).unwrap();
    let latest = fetch_latest_readings(&mut store, Ok(vec![snapshot(41.0, 2_000)])).unwrap();
    assert_eq!(store.readings().len(), 14);
    assert!(latest.iter().all(|row| row.timestamp == 2_000));
    assert_eq!(latest[0].id, Some(8));
    assert!(latest[0].is_alert);
    let older = fetch_latest_readings(&mut store, Ok(vec![snapshot(20.0, 1_500)])).unwrap();
    assert_eq!(store.readings().len(), 21);
    assert!(older.iter().all(|row| row.timestamp == 2_000));
    assert_eq!(older[0].id, Some(8));
}

#[test]
fn a_remote_snapshot_without_room_fails_the_round() {
    let mut store = LocalStore::restore(vec![], vec![], i64::MAX).unwrap();
    assert_eq!(
        fetch_latest_readings(&mut store, Ok(vec![snapshot(20.0, 1)])).err(),
        Some(PipelineError::Storage(StorageFault::IdSpaceExhausted))
    );
    assert_eq!(store.readings().len(), 0);
    assert_eq!(store.thresholds().len(), 7);
}

#[test]
fn two_ingestions_leave_two_whole_batches() {
    let mut store = LocalStore::new();
    process_esp32_data(&mut store, &snapshot(20.0, 111)).unwrap();
    process_esp32_data(&mut store, &snapshot(21.0, 222)).unwrap();
    let rows = store.readings();
    assert_eq!(rows.len(), 14);
    assert_eq!(types(&rows[0..7]), TYPES.to_vec());
    assert_eq!(types(&rows[7..14]), TYPES.to_vec());
    assert!(rows[0..7].iter().all(|row| row.timestamp == 111));
    assert!(rows[7..14].iter().all(|row| row.timestamp == 222));
    let ids: Vec<i64> = rows.iter().map(|row| row.id.unwrap()).collect();
    assert_eq!(ids, (1..=14).collect::<Vec<i64>>());
}

#[test]
fn history_comes_from_the_store() {
    let mut store = LocalStore::new();
    for timestamp in [30, 10, 20] {
        process_esp32_data(&mut store, &snapshot(20.0, timestamp)).unwrap();
    }
    let history = fetch_reading_history(&store, "salinity", 2);
    let times: Vec<i64> = history.iter().map(|row| row.timestamp).collect();
    assert_eq!(times, vec![30, 20]);
    assert!(history.iter().all(|row| row.sensor_type == "salinity"));
    assert_eq!(fetch_reading_history(&store, "salinity", 100).len(), 3);
    assert_eq!(fetch_reading_history(&store, "salinity", -1).len(), 3);
}

#[test]
fn the_threshold_of_a_type_is_its_upper_bound() {
    let mut store = LocalStore::new();
    assert_eq!(f32::from_bits(get_threshold(&mut store, "temperature").to_bits()), 40.0);
    assert_eq!(f32::from_bits(get_threshold(&mut store, "water_level").to_bits()), 90.0);
    assert_eq!(f32::from_bits(get_threshold(&mut store, "pressure").to_bits()), 100.0);
    assert_eq!(store.thresholds().len(), 3);
}

#[test]
fn setting_the_threshold_of_a_type_sets_its_upper_bound() {
    let mut store = LocalStore::new();
    set_threshold(&mut store, "temperature", number(35.5));
    assert_eq!(f32::from_bits(get_threshold(&mut store, "temperature").to_bits()), 35.5);
    let row = sensor_threshold_dao::get_threshold(&mut store, "temperature");
    assert_eq!(f32::from_bits(row.min_value.to_bits()), 10.0);
    assert_eq!(f32::from_bits(row.max_value.to_bits()), 35.5);
    assert_eq!(store.thresholds().len(), 1);
    set_threshold(&mut store, "temperature", number(36.0));
    assert_eq!(f32::from_bits(get_threshold(&mut store, "temperature").to_bits()), 36.0);
    assert_eq!(store.thresholds().len(), 1);
    assert!(alert_of(&mut store, "temperature", 36.5));
    assert!(!alert_of(&mut store, "temperature", 36.0));
}

#[test]
fn setting_the_threshold_keeps_a_lower_bound_that_was_set() {
    let mut store = LocalStore::new();
    sensor_threshold_dao::set_threshold(
        &mut store,
        &SensorThreshold {
            sensor_type: "ph".to_string(),
            min_value: number(6.5),
            max_value: number(7.5),
        },
    );
    set_threshold(&mut store, "ph", number(8.0));
    let row = sensor_threshold_dao::get_threshold(&mut store, "ph");
    assert_eq!(f32::from_bits(row.min_value.to_bits()), 6.5);
    assert_eq!(f32::from_bits(row.max_value.to_bits()), 8.0);
}

#[test]
fn ingesting_a_snapshot_again_shows_the_same_readings() {
    let mut store = LocalStore::new();
    insert(&mut store, &SensorReading::new("ph", number(3.0), 9_000, false)).unwrap();
    let once = fetch_latest_readings(&mut store, Ok(vec![snapshot(45.0, 5_000)])).unwrap();
    let twice = fetch_latest_readings(&mut store, Ok(vec![snapshot(45.0, 5_000)])).unwrap();
    assert_eq!(store.readings().len(), 15);
    assert_eq!(once.len(), 7);
    assert_eq!(twice.len(), 7);
    for (first, second) in once.iter().zip(twice.iter()) {
        assert_eq!(first.sensor_type, second.sensor_type);
        assert_eq!(first.value.to_bits(), second.value.to_bits());
        assert_eq!(first.timestamp, second.timestamp);
        assert_eq!(first.is_alert, second.is_alert);
    }
    assert_eq!(once[0].id, Some(2));
    assert_eq!(twice[0].id, Some(9));
    assert_eq!(once[3].id, Some(1));
    assert_eq!(twice[3].id, Some(1));
    assert_eq!(twice[3].timestamp, 9_000);
}
