//! Session layer: streams.
pub mod stream;
