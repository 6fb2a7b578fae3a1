//! Ingestion and reconciliation of environmental sensor readings.
//!
//! A snapshot from the device or from the remote store is expanded into one
//! reading per sensor type, each reading is checked against the threshold of
//! its type, and the batch is committed to the local store as a whole.
pub mod api;
pub mod data;
pub mod error;
pub mod model;
pub mod repository;
pub mod worker;
