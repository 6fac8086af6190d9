//! The plain data and the decisions behind the C ABI: the object header wire
//! format, WLAN tuning defaults, fixed-size C text fields and the argument
//! checks of the peer and discovery entry points.
//!
//! Multi-byte header fields are little-endian on the wire.
use vstd::prelude::*;

use crate::le::{
    get_le, le_bytes, le_value, lemma_le_bytes_len, lemma_le_bytes_of_value, lemma_le_value_bound,
    lemma_le_value_of_bytes, lemma_pow256_values, put_le,
};

verus! {

/// Size of an encoded [`NgmtObjectHeader`] in bytes.
pub const NGMT_OBJECT_HEADER_LEN: usize = 32;

/// Wire header for one NGMT object or fragment.
/// Track ≈ `track_id`; group ≈ `group_id`; object ≈ `object_id` + payload.
#[derive(Clone, Copy, Debug, PartialEq, Eq)]
pub struct NgmtObjectHeader {
    pub version: u8,
    pub flags: u8,
    pub reserved: u16,
    pub track_id: u32,
    pub group_id: u64,
    pub object_id: u64,
    pub fragment_index: u16,
    pub fragment_total: u16,
    pub payload_length: u32,
}

/// The 32 wire bytes of a header: `version`, `flags`, then each wider field
/// little-endian, in declaration order.
pub open spec fn header_bytes(h: NgmtObjectHeader) -> Seq<u8> {
    seq![h.version, h.flags] + le_bytes(h.reserved as nat, 2) + le_bytes(h.track_id as nat, 4)
        + le_bytes(h.group_id as nat, 8) + le_bytes(h.object_id as nat, 8) + le_bytes(
        h.fragment_index as nat,
        2,
    ) + le_bytes(h.fragment_total as nat, 2) + le_bytes(h.payload_length as nat, 4)
}

/// The header that 32 wire bytes stand for.
pub open spec fn header_from_bytes(b: Seq<u8>) -> NgmtObjectHeader {
    NgmtObjectHeader {
        version: b[0],
        flags: b[1],
        reserved: le_value(b.subrange(2, 4)) as u16,
        track_id: le_value(b.subrange(4, 8)) as u32,
        group_id: le_value(b.subrange(8, 16)) as u64,
        object_id: le_value(b.subrange(16, 24)) as u64,
        fragment_index: le_value(b.subrange(24, 26)) as u16,
        fragment_total: le_value(b.subrange(26, 28)) as u16,
        payload_length: le_value(b.subrange(28, 32)) as u32,
    }
}

proof fn lemma_header_bytes_layout(h: NgmtObjectHeader)
    ensures
        header_bytes(h).len() == 32,
        header_bytes(h)[0] == h.version,
        header_bytes(h)[1] == h.flags,
        header_bytes(h).subrange(2, 4) == le_bytes(h.reserved as nat, 2),
        header_bytes(h).subrange(4, 8) == le_bytes(h.track_id as nat, 4),
        header_bytes(h).subrange(8, 16) == le_bytes(h.group_id as nat, 8),
        header_bytes(h).subrange(16, 24) == le_bytes(h.object_id as nat, 8),
        header_bytes(h).subrange(24, 26) == le_bytes(h.fragment_index as nat, 2),
        header_bytes(h).subrange(26, 28) == le_bytes(h.fragment_total as nat, 2),
        header_bytes(h).subrange(28, 32) == le_bytes(h.payload_length as nat, 4),
{
    lemma_le_bytes_len(h.reserved as nat, 2);
    lemma_le_bytes_len(h.track_id as nat, 4);
    lemma_le_bytes_len(h.group_id as nat, 8);
    lemma_le_bytes_len(h.object_id as nat, 8);
    lemma_le_bytes_len(h.fragment_index as nat, 2);
    lemma_le_bytes_len(h.fragment_total as nat, 2);
    lemma_le_bytes_len(h.payload_length as nat, 4);
    let b = header_bytes(h);
    assert(b.subrange(2, 4) =~= le_bytes(h.reserved as nat, 2));
    assert(b.subrange(4, 8) =~= le_bytes(h.track_id as nat, 4));
    assert(b.subrange(8, 16) =~= le_bytes(h.group_id as nat, 8));
    assert(b.subrange(16, 24) =~= le_bytes(h.object_id as nat, 8));
    assert(b.subrange(24, 26) =~= le_bytes(h.fragment_index as nat, 2));
    assert(b.subrange(26, 28) =~= le_bytes(h.fragment_total as nat, 2));
    assert(b.subrange(28, 32) =~= le_bytes(h.payload_length as nat, 4));
}

/// Every header is encoded in exactly 32 bytes.
pub proof fn lemma_header_bytes_len(h: NgmtObjectHeader)
    ensures
        header_bytes(h).len() == NGMT_OBJECT_HEADER_LEN,
{
    lemma_header_bytes_layout(h);
}

/// Reading back what was written gives the same header.
pub proof fn lemma_header_roundtrip(h: NgmtObjectHeader)
    ensures
        header_from_bytes(header_bytes(h)) == h,
{
    lemma_header_bytes_layout(h);
    lemma_pow256_values();
    lemma_le_value_of_bytes(h.reserved as nat, 2);
    lemma_le_value_of_bytes(h.track_id as nat, 4);
    lemma_le_value_of_bytes(h.group_id as nat, 8);
    lemma_le_value_of_bytes(h.object_id as nat, 8);
    lemma_le_value_of_bytes(h.fragment_index as nat, 2);
    lemma_le_value_of_bytes(h.fragment_total as nat, 2);
    lemma_le_value_of_bytes(h.payload_length as nat, 4);
}

/// Every 32-byte string is the encoding of exactly the header it is read as:
/// writing back what was read reproduces the bytes.
pub proof fn lemma_bytes_roundtrip(b: Seq<u8>)
    requires
        b.len() == NGMT_OBJECT_HEADER_LEN,
    ensures
        header_bytes(header_from_bytes(b)) == b,
{
    let h = header_from_bytes(b);
    lemma_pow256_values();
    lemma_le_value_bound(b.subrange(2, 4));
    lemma_le_value_bound(b.subrange(4, 8));
    lemma_le_value_bound(b.subrange(8, 16));
    lemma_le_value_bound(b.subrange(16, 24));
    lemma_le_value_bound(b.subrange(24, 26));
    lemma_le_value_bound(b.subrange(26, 28));
    lemma_le_value_bound(b.subrange(28, 32));
    lemma_le_bytes_of_value(b.subrange(2, 4));
    lemma_le_bytes_of_value(b.subrange(4, 8));
    lemma_le_bytes_of_value(b.subrange(8, 16));
    lemma_le_bytes_of_value(b.subrange(16, 24));
    lemma_le_bytes_of_value(b.subrange(24, 26));
    lemma_le_bytes_of_value(b.subrange(26, 28));
    lemma_le_bytes_of_value(b.subrange(28, 32));
    lemma_header_bytes_layout(h);
    let e = header_bytes(h);
    assert forall|i: int| 0 <= i < 32 implies #[trigger] e[i] == b[i] by {
        if 2 <= i < 4 {
            assert(e.subrange(2, 4)[i - 2] == e[i]);
            assert(b.subrange(2, 4)[i - 2] == b[i]);
        } else if 4 <= i < 8 {
            assert(e.subrange(4, 8)[i - 4] == e[i]);
            assert(b.subrange(4, 8)[i - 4] == b[i]);
        } else if 8 <= i < 16 {
            assert(e.subrange(8, 16)[i - 8] == e[i]);
            assert(b.subrange(8, 16)[i - 8] == b[i]);
        } else if 16 <= i < 24 {
            assert(e.subrange(16, 24)[i - 16] == e[i]);
            assert(b.subrange(16, 24)[i - 16] == b[i]);
        } else if 24 <= i < 26 {
            assert(e.subrange(24, 26)[i - 24] == e[i]);
            assert(b.subrange(24, 26)[i - 24] == b[i]);
        } else if 26 <= i < 28 {
            assert(e.subrange(26, 28)[i - 26] == e[i]);
            assert(b.subrange(26, 28)[i - 26] == b[i]);
        } else if 28 <= i < 32 {
            assert(e.subrange(28, 32)[i - 28] == e[i]);
            assert(b.subrange(28, 32)[i - 28] == b[i]);
        }
    }
    assert(e =~= b);
}

/// Serializes `header` into the first 32 bytes of `out`, little-endian; the
/// rest of `out` is left as it was. A buffer shorter than 32 bytes is left
/// untouched.
pub fn ngmt_object_header_write_le(header: &NgmtObjectHeader, out: &mut [u8])
    ensures
        final(out)@.len() == old(out)@.len(),
        old(out)@.len() < NGMT_OBJECT_HEADER_LEN ==> final(out)@ == old(out)@,
        old(out)@.len() >= NGMT_OBJECT_HEADER_LEN ==> final(out)@.subrange(0, 32) == header_bytes(
            *header,
        ),
        old(out)@.len() >= NGMT_OBJECT_HEADER_LEN ==> final(out)@.subrange(
            32,
            old(out)@.len() as int,
        ) == old(out)@.subrange(32, old(out)@.len() as int),
{
    if out.len() < NGMT_OBJECT_HEADER_LEN {
        return;
    }
    let ghost start = out@;
    proof {
        lemma_pow256_values();
        lemma_header_bytes_layout(*header);
    }
    out[0] = header.version;
    out[1] = header.flags;
    put_le(out, 2, header.reserved as u64, 2);
    let ghost s2 = out@;
    put_le(out, 4, header.track_id as u64, 4);
    let ghost s3 = out@;
    put_le(out, 8, header.group_id, 8);
    let ghost s4 = out@;
    put_le(out, 16, header.object_id, 8);
    let ghost s5 = out@;
    put_le(out, 24, header.fragment_index as u64, 2);
    let ghost s6 = out@;
    put_le(out, 26, header.fragment_total as u64, 2);
    let ghost s7 = out@;
    put_le(out, 28, header.payload_length as u64, 4);
    let ghost e = header_bytes(*header);
    assert forall|i: int| 0 <= i < 32 implies #[trigger] out@[i] == e[i] by {
        if i < 2 {
        } else if i < 4 {
            assert(s2.subrange(2, 4)[i - 2] == s2[i]);
            assert(e.subrange(2, 4)[i - 2] == e[i]);
        } else if i < 8 {
            assert(s3.subrange(4, 8)[i - 4] == s3[i]);
            assert(e.subrange(4, 8)[i - 4] == e[i]);
        } else if i < 16 {
            assert(s4.subrange(8, 16)[i - 8] == s4[i]);
            assert(e.subrange(8, 16)[i - 8] == e[i]);
        } else if i < 24 {
            assert(s5.subrange(16, 24)[i - 16] == s5[i]);
            assert(e.subrange(16, 24)[i - 16] == e[i]);
        } else if i < 26 {
            assert(s6.subrange(24, 26)[i - 24] == s6[i]);
            assert(e.subrange(24, 26)[i - 24] == e[i]);
        } else if i < 28 {
            assert(s7.subrange(26, 28)[i - 26] == s7[i]);
            assert(e.subrange(26, 28)[i - 26] == e[i]);
        } else {
            assert(out@.subrange(28, 32)[i - 28] == out@[i]);
            assert(e.subrange(28, 32)[i - 28] == e[i]);
        }
    }
    assert(out@.subrange(0, 32) =~= e);
    assert(out@.subrange(32, out@.len() as int) =~= start.subrange(32, start.len() as int));
}

/// Parses the first 32 bytes of `bytes` into `out_header`. Fewer than 32
/// bytes are refused with `false`, leaving `out_header` untouched.
pub fn ngmt_object_header_read_le(bytes: &[u8], out_header: &mut NgmtObjectHeader) -> (ok: bool)
    ensures
        ok <==> bytes@.len() >= NGMT_OBJECT_HEADER_LEN,
        ok ==> *final(out_header) == header_from_bytes(bytes@.subrange(0, 32)),
        !ok ==> *final(out_header) == *old(out_header),
{
    if bytes.len() < NGMT_OBJECT_HEADER_LEN {
        return false;
    }
    let ghost b = bytes@.subrange(0, 32);
    out_header.version = bytes[0];
    out_header.flags = bytes[1];
    out_header.reserved = get_le(bytes, 2, 2) as u16;
    out_header.track_id = get_le(bytes, 4, 4) as u32;
    out_header.group_id = get_le(bytes, 8, 8);
    out_header.object_id = get_le(bytes, 16, 8);
    out_header.fragment_index = get_le(bytes, 24, 2) as u16;
    out_header.fragment_total = get_le(bytes, 26, 2) as u16;
    out_header.payload_length = get_le(bytes, 28, 4) as u32;
    proof {
        assert(b.subrange(2, 4) =~= bytes@.subrange(2, 4));
        assert(b.subrange(4, 8) =~= bytes@.subrange(4, 8));
        assert(b.subrange(8, 16) =~= bytes@.subrange(8, 16));
        assert(b.subrange(16, 24) =~= bytes@.subrange(16, 24));
        assert(b.subrange(24, 26) =~= bytes@.subrange(24, 26));
        assert(b.subrange(26, 28) =~= bytes@.subrange(26, 28));
        assert(b.subrange(28, 32) =~= bytes@.subrange(28, 32));
    }
    true
}


/// WLAN vs wired tuning (see `TransportRuntime::new`).
#[derive(Clone, Copy, Debug, PartialEq, Eq)]
pub struct WlanOptimization {
    /// Non-zero enables aggressive keep-alive / jitter defaults.
    pub enabled: u8,
    pub _pad: [u8; 3],
    /// Suggested QUIC keep-alive / ping interval in ms (e.g. 20 for WLAN).
    pub keep_alive_interval_ms: u32,
    /// Hint for receive jitter buffer depth in ms.
    pub jitter_buffer_depth_ms: u32,
}

impl Default for WlanOptimization {
    /// Wired defaults: disabled, 500 ms keep-alive, 80 ms jitter buffer.
    fn default() -> (w: Self)
        ensures
            w.enabled == 0,
            w._pad@ == seq![0u8, 0u8, 0u8],
            w.keep_alive_interval_ms == 500,
            w.jitter_buffer_depth_ms == 80,
    {
        WlanOptimization {
            enabled: 0,
            _pad: [0u8, 0u8, 0u8],
            keep_alive_interval_ms: 500,
            jitter_buffer_depth_ms: 80,
        }
    }
}

/// The bytes of a NUL-terminated C text field of `cap` bytes holding `s`: its
/// UTF-8 bytes, cut to leave room for the terminator, then zeros.
pub open spec fn c_field_bytes(s: Seq<char>, cap: nat) -> Seq<u8> {
    let b = vstd::utf8::encode_utf8(s);
    let keep = if cap == 0 {
        0
    } else if b.len() < cap - 1 {
        b.len() as int
    } else {
        cap - 1
    };
    Seq::new(cap, |i: int| if i < keep { b[i] } else { 0u8 })
}

/// A C text field is as long as its capacity, ends with NUL when it has room
/// for one, and holds the whole text when the text fits before the NUL.
pub proof fn lemma_c_field_terminated(s: Seq<char>, cap: nat)
    ensures
        c_field_bytes(s, cap).len() == cap,
        cap > 0 ==> c_field_bytes(s, cap)[cap - 1] == 0u8,
        vstd::utf8::encode_utf8(s).len() < cap ==> c_field_bytes(s, cap).take(
            vstd::utf8::encode_utf8(s).len() as int,
        ) == vstd::utf8::encode_utf8(s),
{
    let b = vstd::utf8::encode_utf8(s);
    if b.len() < cap {
        assert(c_field_bytes(s, cap).take(b.len() as int) =~= b);
    }
}

/// Writes `s` into the C text field `dst`: zero-filled, at most `dst.len() - 1`
/// bytes of text, so the field always ends with NUL.
pub fn write_c_field(dst: &mut [u8], s: &str)
    ensures
        final(dst)@ == c_field_bytes(s@, old(dst)@.len()),
{
    let bytes = s.as_bytes();
    let n = dst.len();
    let keep: usize = if n == 0 {
        0
    } else if bytes.len() < n - 1 {
        bytes.len()
    } else {
        n - 1
    };
    let ghost target = c_field_bytes(s@, old(dst)@.len());
    let mut i: usize = 0;
    while i < n
        invariant
            i <= n,
            n == dst@.len(),
            n == old(dst)@.len(),
            bytes@ == vstd::utf8::encode_utf8(s@),
            keep <= bytes@.len(),
            target == c_field_bytes(s@, n as nat),
            keep == (if n == 0 {
                0
            } else if bytes@.len() < n - 1 {
                bytes@.len() as int
            } else {
                n - 1
            }),
            forall|j: int| 0 <= j < i ==> #[trigger] dst@[j] == target[j],
        decreases n - i,
    {
        if i < keep {
            dst[i] = bytes[i];
        } else {
            dst[i] = 0;
        }
        i = i + 1;
    }
    assert(dst@ =~= target);
}

/// One resolved `_ngmt._udp` service as C text fields (UTF-8, NUL-terminated,
/// excess truncated).
pub struct NgmtDiscoveredService {
    /// Target host for QUIC dial (often `*.local`).
    pub host: [u8; 256],
    pub port: u16,
    pub _pad: u16,
    /// DNS-SD full name, lowercased (stable pick key).
    pub fullname: [u8; 256],
    /// Instance label (first label of the full name).
    pub label: [u8; 128],
    /// Optional TXT `role`; empty if absent.
    pub role: [u8; 64],
}

/// `out` describes `e`.
pub open spec fn service_describes(out: NgmtDiscoveredService, e: crate::discover::EntryView) -> bool {
    &&& out.host@ == c_field_bytes(e.host, 256)
    &&& out.port == e.port
    &&& out._pad == 0
    &&& out.fullname@ == c_field_bytes(e.fullname, 256)
    &&& out.label@ == c_field_bytes(e.instance_name, 128)
    &&& out.role@ == c_field_bytes(e.role, 64)
}

/// Copies `e` into the C record `out`.
pub fn fill_discovered_service(out: &mut NgmtDiscoveredService, e: &crate::discover::DiscoveredEntry)
    ensures
        service_describes(*final(out), e@),
{
    write_c_field(&mut out.host, e.host.as_str());
    out.port = e.port;
    out._pad = 0;
    write_c_field(&mut out.fullname, e.fullname.as_str());
    write_c_field(&mut out.label, e.instance_name.as_str());
    write_c_field(&mut out.role, e.role.as_str());
}

/// The browse wait of `ngmt_transport_discover_refresh`: `wait_ms` clamped to `1..=5000`.
pub fn discover_refresh_wait_ms(wait_ms: u32) -> (ms: u32)
    ensures
        ms == if wait_ms < 1 {
            1
        } else if wait_ms > 5000 {
            5000
        } else {
            wait_ms
        },
{
    let at_least_one = if wait_ms < 1 {
        1
    } else {
        wait_ms
    };
    if at_least_one > 5000 {
        5000
    } else {
        at_least_one
    }
}

/// `ngmt_transport_discover_get`: copies entry `index` of the sorted listing
/// into `out`; `false`, with `out` untouched, when there is no such entry.
pub fn discover_get(
    cache: &crate::discover::DiscoveryCache,
    index: u32,
    out: &mut NgmtDiscoveredService,
) -> (ok: bool)
    ensures
        ok <==> (index as int) < cache.listing().len(),
        ok ==> service_describes(*final(out), cache.listing()[index as int]),
        !ok ==> *final(out) == *old(out),
{
    match cache.entry_at(index as usize) {
        Some(e) => {
            fill_discovered_service(out, &e);
            true
        },
        None => false,
    }
}

/// `ngmt_transport_discover_lookup`: copies the entry held under `fullname`
/// (compared lowercased) into `out`. `false`, with `out` untouched, when the
/// name is missing, empty or not in the cache.
pub fn discover_lookup(
    cache: &crate::discover::DiscoveryCache,
    fullname: Option<&str>,
    out: &mut NgmtDiscoveredService,
) -> (ok: bool)
    ensures
        ok <==> match fullname {
            Some(n) => n@.len() > 0 && cache@.contains_key(
                crate::text::unicode_lowercase(n@),
            ),
            None => false,
        },
        ok ==> service_describes(
            *final(out),
            cache@[crate::text::unicode_lowercase(fullname->0@)],
        ),
        !ok ==> *final(out) == *old(out),
{
    let key = match fullname {
        Some(n) => n,
        None => return false,
    };
    if key.is_empty() {
        return false;
    }
    match cache.lookup_fullname(key) {
        Some(e) => {
            fill_discovered_service(out, &e);
            true
        },
        None => false,
    }
}

/// The receive wait of `ngmt_transport_peer_recv_datagram_timeout`: `None` for
/// an empty buffer (the call is refused), else `timeout_ms`, at least 1 ms.
pub fn peer_recv_wait_ms(timeout_ms: u32, cap: usize) -> (w: Option<u64>)
    ensures
        cap == 0 ==> w is None,
        cap > 0 ==> w == Some(
            if timeout_ms < 1 {
                1u64
            } else {
                timeout_ms as u64
            },
        ),
{
    if cap == 0 {
        None
    } else if timeout_ms < 1 {
        Some(1)
    } else {
        Some(timeout_ms as u64)
    }
}

/// Hands a received datagram to a caller buffer: copied whole into the front
/// of `buf` with its length returned, or, when it does not fit, dropped with
/// `buf` untouched. A datagram is never truncated.
pub fn deliver_datagram(data: &[u8], buf: &mut [u8]) -> (n: Option<usize>)
    ensures
        final(buf)@.len() == old(buf)@.len(),
        data@.len() > old(buf)@.len() ==> n is None && final(buf)@ == old(buf)@,
        data@.len() <= old(buf)@.len() ==> n == Some(data@.len() as usize)
            && final(buf)@.subrange(0, data@.len() as int) == data@ && final(buf)@.subrange(
            data@.len() as int,
            old(buf)@.len() as int,
        ) == old(buf)@.subrange(data@.len() as int, old(buf)@.len() as int),
{
    let len = data.len();
    if len > buf.len() {
        return None;
    }
    let mut i: usize = 0;
    while i < len
        invariant
            i <= len,
            len == data@.len(),
            len <= buf@.len(),
            buf@.len() == old(buf)@.len(),
            forall|j: int| 0 <= j < i ==> #[trigger] buf@[j] == data@[j],
            forall|j: int| len <= j < buf@.len() ==> #[trigger] buf@[j] == old(buf)@[j],
        decreases len - i,
    {
        buf[i] = data[i];
        i = i + 1;
    }
    assert(buf@.subrange(0, len as int) =~= data@);
    assert(buf@.subrange(len as int, buf@.len() as int) =~= old(buf)@.subrange(
        len as int,
        old(buf)@.len() as int,
    ));
    Some(len)
}

/// The TLS name used when the caller gives none.
pub open spec fn default_server_name() -> Seq<char> {
    "localhost"@
}

/// The host and TLS server name of `ngmt_transport_peer_dial`: no dial without
/// a non-empty host; a missing or empty server name stands for `localhost`.
pub fn peer_dial_target(host: Option<&str>, server_name: Option<&str>) -> (r: Option<(String, String)>)
    ensures
        r is Some <==> (host is Some && host->0@.len() > 0),
        r matches Some(t) ==> t.0@ == host->0@ && t.1@ == match server_name {
            Some(n) => if n@.len() > 0 {
                n@
            } else {
                default_server_name()
            },
            None => default_server_name(),
        },
{
    let h = match host {
        Some(h) => h,
        None => return None,
    };
    if h.is_empty() {
        return None;
    }
    let sn = match server_name {
        Some(n) => if n.is_empty() {
            "localhost".to_owned()
        } else {
            n.to_owned()
        },
        None => "localhost".to_owned(),
    };
    Some((h.to_owned(), sn))
}

} // verus!
