# anytls

The logic of an AnyTLS proxy (a protocol that multiplexes streams over one TLS
connection), written in Verus with its contracts proved.

- `src/protocol`: frame commands and frames; the SOCKS5 destination address that
  opens every proxied stream, read field by field.
- `src/session`: a stream and the buffer that keeps received bytes in order.
- `src/client`: the pool of idle sessions kept for reuse.
- `src/server`: the decisions of the server for a new stream (read the address,
  connect, report with a SYNACK, relay), and the server's numeric options.
- `src/util`: the error type.
- `src/payload.rs`: the `bytes::Bytes` buffers that frames carry.

`app/` holds the asynchronous I/O around the library: `AsyncRead`/`AsyncWrite` for
streams, the lock around the session pool, the task that drives a stream's
handshake, and the server's command line.
