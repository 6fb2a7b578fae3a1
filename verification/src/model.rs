//! The reading model: sensor values, sensor types, and the records built from
//! them.
pub mod binary32;
pub mod sensor_data;
pub mod sensor_types;
