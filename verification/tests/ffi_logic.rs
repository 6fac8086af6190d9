use ngmt_transport::discover::{DiscoveryCache, DiscoveryEvent};
use ngmt_transport::ffi::{
    deliver_datagram, discover_get, discover_lookup, discover_refresh_wait_ms, peer_dial_target,
    peer_recv_wait_ms, write_c_field, NgmtDiscoveredService,
};

fn blank_service() -> NgmtDiscoveredService {
    NgmtDiscoveredService {
        host: [0xaa; 256],
        port: 1,
        _pad: 9,
        fullname: [0xaa; 256],
        label: [0xaa; 128],
        role: [0xaa; 64],
    }
}

fn c_text(field: &[u8]) -> &[u8] {
    let end = field.iter().position(|b| *b == 0).unwrap();
    &field[..end]
}

#[test]
fn c_field_truncates_and_terminates() {
    let mut f = [0xffu8; 4];
    write_c_field(&mut f, "abcdef");
    assert_eq!(f, [b'a', b'b', b'c', 0]);
    let mut g = [0xffu8; 6];
    write_c_field(&mut g, "ab");
    assert_eq!(g, [b'a', b'b', 0, 0, 0, 0]);
    let mut e: [u8; 0] = [];
    write_c_field(&mut e, "x");
    let mut u = [0xffu8; 4];
    write_c_field(&mut u, "é!");
    assert_eq!(u, [0xc3, 0xa9, b'!', 0]);
}

#[test]
fn discover_get_and_lookup_fill_record() {
    let mut c = DiscoveryCache::new();
    c.apply_event(DiscoveryEvent::ServiceResolved {
        fullname: "Cam._ngmt._udp.local.".to_string(),
        hostname: "cam.local.".to_string(),
        port: 4433,
        role: Some("Generator".to_string()),
    });
    let mut out = blank_service();
    assert!(discover_get(&c, 0, &mut out));
    assert_eq!(c_text(&out.host), b"cam.local");
    assert_eq!(out.port, 4433);
    assert_eq!(out._pad, 0);
    assert_eq!(c_text(&out.fullname), b"cam._ngmt._udp.local.");
    assert_eq!(c_text(&out.label), b"Cam");
    assert_eq!(c_text(&out.role), b"generator");

    let mut miss = blank_service();
    assert!(!discover_get(&c, 1, &mut miss));
    assert_eq!(miss.port, 1);

    let mut found = blank_service();
    assert!(discover_lookup(&c, Some("CAM._ngmt._udp.local."), &mut found));
    assert_eq!(found.port, 4433);
    let mut none = blank_service();
    assert!(!discover_lookup(&c, Some(""), &mut none));
    assert!(!discover_lookup(&c, None, &mut none));
    assert!(!discover_lookup(&c, Some("other._ngmt._udp.local."), &mut none));
    assert_eq!(none.port, 1);
}

#[test]
fn discover_wait_is_clamped() {
    assert_eq!(discover_refresh_wait_ms(0), 1);
    assert_eq!(discover_refresh_wait_ms(250), 250);
    assert_eq!(discover_refresh_wait_ms(5000), 5000);
    assert_eq!(discover_refresh_wait_ms(99_999), 5000);
}

#[test]
fn recv_wait_and_buffer_checks() {
    assert_eq!(peer_recv_wait_ms(0, 0), None);
    assert_eq!(peer_recv_wait_ms(0, 10), Some(1));
    assert_eq!(peer_recv_wait_ms(250, 10), Some(250));
}

#[test]
fn oversized_datagram_is_dropped_not_truncated() {
    let mut buf = [7u8; 4];
    assert_eq!(deliver_datagram(&[1, 2, 3, 4, 5], &mut buf), None);
    assert_eq!(buf, [7, 7, 7, 7]);
    assert_eq!(deliver_datagram(&[1, 2], &mut buf), Some(2));
    assert_eq!(buf, [1, 2, 7, 7]);
    assert_eq!(deliver_datagram(&[9, 8, 7, 6], &mut buf), Some(4));
    assert_eq!(buf, [9, 8, 7, 6]);
}

#[test]
fn dial_target_defaults() {
    assert_eq!(peer_dial_target(None, None), None);
    assert_eq!(peer_dial_target(Some(""), Some("x")), None);
    assert_eq!(
        peer_dial_target(Some("10.0.0.2"), None),
        Some(("10.0.0.2".to_string(), "localhost".to_string()))
    );
    assert_eq!(
        peer_dial_target(Some("h"), Some("")),
        Some(("h".to_string(), "localhost".to_string()))
    );
    assert_eq!(
        peer_dial_target(Some("h"), Some("studio.lan")),
        Some(("h".to_string(), "studio.lan".to_string()))
    );
}
