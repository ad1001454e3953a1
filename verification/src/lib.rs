//! A small competency-rating service core.
//!
//! The library owns the data model, the per-id actor that accumulates
//! ratings, the wire codec for rating sequences, and the gateway's routing
//! and response rules. I/O (the HTTP runtime, the key-value store) stays
//! outside; the library works on plain values and byte sequences.

pub mod actor;
pub mod codec;
pub mod gateway;
pub mod model;
pub mod registry;
