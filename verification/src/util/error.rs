//! The library's error type.
use vstd::prelude::*;

verus! {

/// `std::io::Error` is an outside type; Verus sees nothing inside a value of it.
#[verifier::external_type_specification]
#[verifier::external_body]
pub struct ExIoError(std::io::Error);

/// AnyTLS protocol errors
#[derive(Debug)]
pub enum AnyTlsError {
    /// IO error
    Io(std::io::Error),
    /// TLS error
    Tls(String),
    /// Protocol error
    Protocol(String),
    /// Authentication failed
    AuthenticationFailed,
    /// Stream not found
    StreamNotFound(u32),
    /// Session closed
    SessionClosed,
    /// Invalid frame
    InvalidFrame(String),
    /// Padding scheme error
    PaddingScheme(String),
    /// Configuration error
    Config(String),
}

} // verus!
