//! Transport layer for NextGenMediaTransport: wire formats, queues and the
//! decision logic around QUIC sessions and LAN discovery.
pub mod app_api;
pub mod discover;
pub mod engine;
pub mod ffi;
pub mod le;
pub mod log_forward;
pub mod text;

use vstd::prelude::*;

verus! {

/// The version of the C ABI that this library implements.
pub fn ngmt_transport_abi_version() -> (v: u32)
    ensures
        v == 1,
{
    1
}

} // verus!
