//! Session engine: the bounded datagram queue and the decisions of the QUIC session.
pub mod datagram_queue;
pub mod session;
pub mod tls;
