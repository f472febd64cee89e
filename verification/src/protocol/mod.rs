//! Protocol layer: frames and the destination address that opens a stream.
pub mod frame;
pub mod socks;
