//! Snapshots, readings and thresholds.
use vstd::prelude::*;
use crate::model::binary32::Binary32;
use crate::model::binary32::{ONE, ZERO};
use crate::model::sensor_types::{
    HUMIDITY, PH, RAIN, SALINITY, SOIL_MOISTURE, TEMPERATURE, WATER_LEVEL,
};
use crate::model::sensor_types::sensor_types;

verus! {

/// What the device reports at one instant: one value per sensor, and the
/// time in milliseconds since the epoch.
#[derive(Clone, Copy, Debug)]
pub struct ESP32SensorData {
    pub temperature: Binary32,
    pub humidity: Binary32,
    pub water_level: Binary32,
    pub ph: Binary32,
    pub salinity: Binary32,
    pub rain: bool,
    pub soil_moisture: Binary32,
    pub timestamp: i64,
}

/// One value of one sensor type. `id` is set by the store that holds the
/// reading, and `is_alert` when the value is held against the threshold of
/// its type.
#[derive(Clone, Debug)]
pub struct SensorReading {
    pub id: Option<i64>,
    pub sensor_type: String,
    pub value: Binary32,
    pub timestamp: i64,
    pub is_alert: bool,
}

/// The range of values that raises no alert for one sensor type.
#[derive(Clone, Debug)]
pub struct SensorThreshold {
    pub sensor_type: String,
    pub min_value: Binary32,
    pub max_value: Binary32,
}

/// A reading as a mathematical value.
pub ghost struct ReadingView {
    pub id: Option<i64>,
    pub sensor_type: Seq<char>,
    pub value: Binary32,
    pub timestamp: i64,
    pub is_alert: bool,
}

/// A threshold as a mathematical value.
pub ghost struct ThresholdView {
    pub sensor_type: Seq<char>,
    pub min_value: Binary32,
    pub max_value: Binary32,
}

impl View for SensorReading {
    type V = ReadingView;

    open spec fn view(&self) -> ReadingView {
        ReadingView {
            id: self.id,
            sensor_type: self.sensor_type@,
            value: self.value,
            timestamp: self.timestamp,
            is_alert: self.is_alert,
        }
    }
}

impl View for SensorThreshold {
    type V = ThresholdView;

    open spec fn view(&self) -> ThresholdView {
        ThresholdView {
            sensor_type: self.sensor_type@,
            min_value: self.min_value,
            max_value: self.max_value,
        }
    }
}

/// The views of a sequence of readings.
pub open spec fn reading_views(readings: Seq<SensorReading>) -> Seq<ReadingView> {
    Seq::new(readings.len(), |i: int| readings[i]@)
}

/// The views of a sequence of thresholds.
pub open spec fn threshold_views(thresholds: Seq<SensorThreshold>) -> Seq<ThresholdView> {
    Seq::new(thresholds.len(), |i: int| thresholds[i]@)
}

/// A reading that no store holds yet and that no threshold has judged.
pub open spec fn fresh_reading(sensor_type: Seq<char>, value: Binary32, timestamp: i64)
    -> ReadingView {
    ReadingView { id: None, sensor_type, value, timestamp, is_alert: false }
}

/// Rain as a number: 1 where it rains, 0 where it does not.
pub open spec fn rain_value(rain: bool) -> Binary32 {
    Binary32 { bits: if rain { ONE } else { ZERO } }
}

/// The seven readings of a snapshot, in the fixed order of the sensor types.
pub open spec fn expand(data: ESP32SensorData) -> Seq<ReadingView> {
    seq![
        fresh_reading(TEMPERATURE@, data.temperature, data.timestamp),
        fresh_reading(HUMIDITY@, data.humidity, data.timestamp),
        fresh_reading(WATER_LEVEL@, data.water_level, data.timestamp),
        fresh_reading(PH@, data.ph, data.timestamp),
        fresh_reading(SALINITY@, data.salinity, data.timestamp),
        fresh_reading(RAIN@, rain_value(data.rain), data.timestamp),
        fresh_reading(SOIL_MOISTURE@, data.soil_moisture, data.timestamp),
    ]
}

impl SensorReading {
    /// A reading that no store holds yet.
    pub fn new(sensor_type: &str, value: Binary32, timestamp: i64, is_alert: bool) -> (reading:
        SensorReading)
        ensures
            reading@ == (ReadingView {
                id: None,
                sensor_type: sensor_type@,
                value,
                timestamp,
                is_alert,
            }),
    {
        SensorReading { id: None, sensor_type: sensor_type.to_owned(), value, timestamp, is_alert }
    }

    /// A second reading with the same content.
    pub fn duplicate(&self) -> (copy: SensorReading)
        ensures
            copy@ == self@,
    {
        SensorReading {
            id: self.id,
            sensor_type: self.sensor_type.clone(),
            value: self.value,
            timestamp: self.timestamp,
            is_alert: self.is_alert,
        }
    }

    /// Expands a snapshot into its seven readings.
    pub fn from_esp32_data(data: &ESP32SensorData) -> (readings: Vec<SensorReading>)
        ensures
            reading_views(readings@) == expand(*data),
            readings@.len() == 7,
            forall|i: int|
                0 <= i < 7 ==> {
                    &&& (#[trigger] readings@[i]).sensor_type@ == sensor_types()[i]
                    &&& readings@[i].timestamp == data.timestamp
                    &&& !readings@[i].is_alert
                    &&& readings@[i].id is None
                },
    {
        let timestamp = data.timestamp;
        let rain = if data.rain {
            Binary32::from_bits(ONE)
        } else {
            Binary32::from_bits(ZERO)
        };
        let mut readings: Vec<SensorReading> = Vec::new();
        readings.push(SensorReading::new(TEMPERATURE, data.temperature, timestamp, false));
        readings.push(SensorReading::new(HUMIDITY, data.humidity, timestamp, false));
        readings.push(SensorReading::new(WATER_LEVEL, data.water_level, timestamp, false));
        readings.push(SensorReading::new(PH, data.ph, timestamp, false));
        readings.push(SensorReading::new(SALINITY, data.salinity, timestamp, false));
        readings.push(SensorReading::new(RAIN, rain, timestamp, false));
        readings.push(SensorReading::new(SOIL_MOISTURE, data.soil_moisture, timestamp, false));
        assert(reading_views(readings@) =~= expand(*data));
        readings
    }
}

impl SensorThreshold {
    /// A second threshold with the same content.
    pub fn duplicate(&self) -> (copy: SensorThreshold)
        ensures
            copy@ == self@,
    {
        SensorThreshold {
            sensor_type: self.sensor_type.clone(),
            min_value: self.min_value,
            max_value: self.max_value,
        }
    }
}

/// A snapshot expands into exactly seven readings: the i-th has the i-th
/// sensor type, all carry the snapshot's time, none is an alert, and none has
/// an identifier.
pub proof fn law_expand_one_per_sensor_type(data: ESP32SensorData)
    ensures
        expand(data).len() == 7,
        forall|i: int|
            0 <= i < 7 ==> {
                &&& (#[trigger] expand(data)[i]).sensor_type == sensor_types()[i]
                &&& expand(data)[i].timestamp == data.timestamp
                &&& !expand(data)[i].is_alert
                &&& expand(data)[i].id is None
            },
{
}

} // verus!
