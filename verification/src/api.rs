//! What the two sources of snapshots have in common with the network set
//! aside: which answers count, and in which order snapshots are handed on.
pub mod esp32_api;
pub mod firebase_api;
