use ngmt_transport::ffi::{ngmt_object_header_read_le, ngmt_object_header_write_le, NgmtObjectHeader};
use ngmt_transport::ngmt_transport_abi_version;

#[test]
fn test_abi_version() {
    assert_eq!(ngmt_transport_abi_version(), 1);
}

#[test]
fn object_header_roundtrip_le() {
    let h = NgmtObjectHeader {
        version: 1,
        flags: 0,
        reserved: 0,
        track_id: 0x01020304,
        group_id: 0x1122334455667788,
        object_id: 0xaabbccddeeff0011,
        fragment_index: 0,
        fragment_total: 3,
        payload_length: 1200,
    };
    let mut buf = [0u8; 32];
    ngmt_object_header_write_le(&h, &mut buf);
    let mut out = NgmtObjectHeader {
        version: 0,
        flags: 0,
        reserved: 0,
        track_id: 0,
        group_id: 0,
        object_id: 0,
        fragment_index: 0,
        fragment_total: 0,
        payload_length: 0,
    };
    assert!(ngmt_object_header_read_le(&buf, &mut out));
    assert_eq!(out.track_id, h.track_id);
    assert_eq!(out.payload_length, h.payload_length);
}
