use firebase_rs::Firebase;
use sensor_monitor::api::esp32_api::check_status;
use sensor_monitor::api::firebase_api::{
    handle_or_config_error, initialize, snapshot_collection, sort_newest_first, DATABASE_PATH,
    FIREBASE_URL, LATEST_LIMIT, ORDER_FIELD,
};
use sensor_monitor::error::PipelineError;
use sensor_monitor::model::binary32::Binary32;
use sensor_monitor::model::sensor_data::ESP32SensorData;

fn snapshot(mark: f32, timestamp: i64) -> ESP32SensorData {
    let number = |x: f32| Binary32::from_bits(x.to_bits());
    ESP32SensorData {
        temperature: number(mark),
        humidity: number(50.0),
        water_level: number(30.0),
        ph: number(7.0),
        salinity: number(10.0),
        rain: true,
        soil_moisture: number(40.0),
        timestamp,
    }
}

fn marks(snapshots: &[ESP32SensorData]) -> Vec<(f32, i64)> {
    snapshots
        .iter()
        .map(|snapshot| (f32::from_bits(snapshot.temperature.to_bits()), snapshot.timestamp))
        .collect()
}

#[test]
fn statuses_from_200_to_299_are_accepted() {
    assert_eq!(check_status(200), Ok(()));
    assert_eq!(check_status(204), Ok(()));
    assert_eq!(check_status(299), Ok(()));
}

#[test]
fn other_statuses_are_transport_failures_that_carry_the_status() {
    for status in [0u16, 100, 199, 300, 301, 404, 500, 503, u16::MAX] {
        assert_eq!(
            check_status(status),
            Err(PipelineError::Transport { status: Some(status) })
        );
    }
}

#[test]
fn snapshots_are_ordered_from_the_newest() {
    let sorted = sort_newest_first(vec![
        snapshot(1.0, 100),
        snapshot(2.0, 500),
        snapshot(3.0, 300),
        snapshot(4.0, 400),
        snapshot(5.0, 200),
    ]);
    assert_eq!(marks(&sorted), vec![(2.0, 500), (4.0, 400), (3.0, 300), (5.0, 200), (1.0, 100)]);
}

#[test]
fn snapshots_of_one_time_keep_their_order() {
    let sorted = sort_newest_first(vec![
        snapshot(1.0, 7),
        snapshot(2.0, 9),
        snapshot(3.0, 7),
        snapshot(4.0, 9),
        snapshot(5.0, 7),
    ]);
    assert_eq!(marks(&sorted), vec![(2.0, 9), (4.0, 9), (1.0, 7), (3.0, 7), (5.0, 7)]);
}

#[test]
fn few_snapshots_are_ordered_too() {
    assert!(sort_newest_first(vec![]).is_empty());
    assert_eq!(marks(&sort_newest_first(vec![snapshot(1.0, -5)])), vec![(1.0, -5)]);
    let pair = sort_newest_first(vec![snapshot(1.0, i64::MIN), snapshot(2.0, i64::MAX)]);
    assert_eq!(marks(&pair), vec![(2.0, i64::MAX), (1.0, i64::MIN)]);
}

#[test]
fn the_remote_store_is_named() {
    assert_eq!(FIREBASE_URL, "https://your-project-id.firebaseio.com");
    assert_eq!(DATABASE_PATH, "sensor_readings");
    assert_eq!(LATEST_LIMIT, 5);
    assert_eq!(ORDER_FIELD, "timestamp");
}

#[test]
fn the_remote_store_can_be_set_up() {
    let root = initialize().unwrap();
    assert_eq!(root.get_uri(), "https://your-project-id.firebaseio.com/");
}

#[test]
fn the_collection_lies_below_the_root() {
    let collection = snapshot_collection().unwrap();
    assert_eq!(collection.get_uri(), "https://your-project-id.firebaseio.com/sensor_readings.json");
}

#[test]
fn an_address_that_is_refused_is_a_config_error() {
    assert_eq!(
        handle_or_config_error(Firebase::new("http://your-project-id.firebaseio.com")).err(),
        Some(PipelineError::Config)
    );
    assert_eq!(
        handle_or_config_error(Firebase::new("not an address")).err(),
        Some(PipelineError::Config)
    );
}

#[test]
fn an_address_that_is_taken_gives_its_handle() {
    let handle = handle_or_config_error(Firebase::new("https://example.firebaseio.com")).unwrap();
    assert_eq!(handle.get_uri(), "https://example.firebaseio.com/");
}
