//! Access to the two tables of the local store.
pub mod sensor_reading_dao;
pub mod sensor_threshold_dao;
