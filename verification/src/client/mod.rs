//! Client side: reuse of idle sessions.
pub mod session_pool;
