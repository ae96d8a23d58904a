//! A small assignment-tracking library: an in-memory store of homework
//! records with validated course codes, monotonically allocated ids,
//! expiry-based purging on reads, and snapshot-based restart seeding.

pub mod homework;
pub mod lifecycle;
pub mod numbers;
pub mod render;
pub mod store;
pub mod validation;
