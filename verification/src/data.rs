//! The local store.
pub mod dao;
pub mod store;
