# ngmt_transport

Transport layer for NextGenMediaTransport (NGMT): QUIC sessions for WAN media
delivery, a C ABI for hosts such as `ngmt-core` and OBS, and DNS-SD discovery of
`_ngmt._udp` services on the LAN.

The crate is split in two.

- `src/` is the library, verified with Verus. It holds the object header wire
  format and its little-endian codec (`ffi`, `le`), the bounded datagram queue
  (`engine::datagram_queue`), the dial order of resolved addresses, the
  keep-alive and transport settings, the TLS identity choice and the connect
  bookkeeping (`engine::session`, `engine::tls`), the cache of discovered
  services (`discover`), the jitter sample window and connection intents
  (`app_api`), the log line format (`log_forward`) and the text operations
  they rely on (`text`). The QUIC transport settings (idle timeout,
  keep-alive, datagram buffers, BBR) are `engine::session::transport_settings`,
  and `ngmt_alpn` is the ALPN id both sides offer.
- `app/` is the plumbing around it: the tokio runtime and quinn endpoint, the
  `extern "C"` entry points with their pointer checks and process-wide state,
  the lock that shares the datagram queue between threads, the mDNS daemon,
  the `tracing` bridge, the floating-point statistics, and
  a bring-up smoke run (`smoke::run_smoke`).
