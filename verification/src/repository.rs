//! Reconciliation: what is done with a snapshot, whatever its source.
pub mod sensor_repository;
