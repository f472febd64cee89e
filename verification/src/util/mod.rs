//! Utilities: the error type.
pub mod error;
