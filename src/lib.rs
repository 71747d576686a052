//! Incremental, schema-driven reconstruction of one record from the
//! key/value pairs of JSON objects.
pub mod json;
pub mod laws;
pub mod model;
pub mod processor;

pub use processor::{Data, DataIterator, ProcessError, StreamProcessor};
