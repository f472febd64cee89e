//! Server side: handling of new streams, and the server's command-line values.
pub mod args;
pub mod handler;
