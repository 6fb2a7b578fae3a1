//! The periodic worker.
pub mod sensor_data_worker;
