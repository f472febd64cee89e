//! AnyTLS: a proxy protocol that multiplexes streams over one TLS connection, to
//! mitigate TLS-in-TLS fingerprinting.
//!
//! - `payload`: the byte buffers that frames and streams carry
//! - `protocol`: frames, commands, and the SOCKS5 destination address
//! - `session`: streams and their receive buffers
//! - `client`: the pool of idle sessions
//! - `server`: the handling of a new stream, and command-line values
//! - `util`: the error type
pub mod payload;
pub mod protocol;
pub mod session;
pub mod client;
pub mod server;
pub mod util;

pub use protocol::frame::{Command, Frame, HEADER_OVERHEAD_SIZE};
pub use protocol::socks::{SocksAddr, SocksAddrError, SocksAddrReader, SocksField, SocksHost, SocksRead};
pub use session::stream::{Stream, StreamWriteError};
pub use client::session_pool::SessionPool;
pub use server::handler::{ProxyAction, ProxyError, ProxyEvent, ProxyHandshake, TcpProxyHandler};
pub use server::args::{parse_u64, parse_usize, ArgError, IntErrorKind};
pub use util::error::AnyTlsError;
