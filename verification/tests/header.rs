use ngmt_transport::ffi::{
    ngmt_object_header_read_le, ngmt_object_header_write_le, NgmtObjectHeader, WlanOptimization,
};

fn sample_header() -> NgmtObjectHeader {
    NgmtObjectHeader {
        version: 2,
        flags: 0x81,
        reserved: 0xbeef,
        track_id: 0x01020304,
        group_id: 0x1122334455667788,
        object_id: 0xaabbccddeeff0011,
        fragment_index: 0x0102,
        fragment_total: 0x0304,
        payload_length: 0xa0b0c0d0,
    }
}

fn zero_header() -> NgmtObjectHeader {
    NgmtObjectHeader {
        version: 0,
        flags: 0,
        reserved: 0,
        track_id: 0,
        group_id: 0,
        object_id: 0,
        fragment_index: 0,
        fragment_total: 0,
        payload_length: 0,
    }
}

#[test]
fn header_bytes_are_little_endian() {
    let mut buf = [0u8; 32];
    ngmt_object_header_write_le(&sample_header(), &mut buf);
    let expected: [u8; 32] = [
        0x02, 0x81, 0xef, 0xbe, 0x04, 0x03, 0x02, 0x01, 0x88, 0x77, 0x66, 0x55, 0x44, 0x33, 0x22,
        0x11, 0x11, 0x00, 0xff, 0xee, 0xdd, 0xcc, 0xbb, 0xaa, 0x02, 0x01, 0x04, 0x03, 0xd0, 0xc0,
        0xb0, 0xa0,
    ];
    assert_eq!(buf, expected);
}

#[test]
fn header_roundtrip_all_fields() {
    let h = sample_header();
    let mut buf = [0u8; 32];
    ngmt_object_header_write_le(&h, &mut buf);
    let mut out = zero_header();
    assert!(ngmt_object_header_read_le(&buf, &mut out));
    assert_eq!(out, h);
}

#[test]
fn header_write_leaves_tail_alone() {
    let mut buf = [0x5au8; 40];
    ngmt_object_header_write_le(&sample_header(), &mut buf);
    assert_eq!(&buf[32..], &[0x5au8; 8]);
    assert_eq!(buf[0], 2);
}

#[test]
fn header_bytes_roundtrip_from_arbitrary_bytes() {
    let mut bytes = [0u8; 32];
    for (i, b) in bytes.iter_mut().enumerate() {
        *b = (i as u8).wrapping_mul(37).wrapping_add(11);
    }
    let mut h = zero_header();
    assert!(ngmt_object_header_read_le(&bytes, &mut h));
    assert_eq!(h.reserved, u16::from_le_bytes([bytes[2], bytes[3]]));
    assert_eq!(h.group_id, u64::from_le_bytes(bytes[8..16].try_into().unwrap()));
    let mut again = [0u8; 32];
    ngmt_object_header_write_le(&h, &mut again);
    assert_eq!(again, bytes);
}

#[test]
fn header_max_values_roundtrip() {
    let h = NgmtObjectHeader {
        version: u8::MAX,
        flags: u8::MAX,
        reserved: u16::MAX,
        track_id: u32::MAX,
        group_id: u64::MAX,
        object_id: u64::MAX,
        fragment_index: u16::MAX,
        fragment_total: u16::MAX,
        payload_length: u32::MAX,
    };
    let mut buf = [0u8; 32];
    ngmt_object_header_write_le(&h, &mut buf);
    assert_eq!(buf, [0xffu8; 32]);
    let mut out = zero_header();
    assert!(ngmt_object_header_read_le(&buf, &mut out));
    assert_eq!(out, h);
}

#[test]
fn wlan_defaults() {
    let w = WlanOptimization::default();
    assert_eq!(w.enabled, 0);
    assert_eq!(w._pad, [0, 0, 0]);
    assert_eq!(w.keep_alive_interval_ms, 500);
    assert_eq!(w.jitter_buffer_depth_ms, 80);
}

#[test]
fn short_buffers_are_refused() {
    let mut short = [9u8; 31];
    ngmt_object_header_write_le(&sample_header(), &mut short);
    assert_eq!(short, [9u8; 31]);
    let mut h = sample_header();
    assert!(!ngmt_object_header_read_le(&[0u8; 31], &mut h));
    assert_eq!(h, sample_header());
}
