//! DNS data types and their wire format.
pub mod laws;
pub mod messages;
pub mod types;
pub mod wire;
