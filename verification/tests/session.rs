use ngmt_transport::engine::session::{transport_settings, AttemptOutcome, CongestionControl, ConnectAction};
use ngmt_transport::engine::session::{
    connect_addr_tier, keep_alive_interval_ms, sort_connect_addrs, tls_server_pem_paths,
    tls_trust_anchor_pem_path, AttemptFailure, ConnectAddr, ConnectPlan,
};
use ngmt_transport::ffi::WlanOptimization;

fn v4(a: [u8; 4], port: u16) -> ConnectAddr {
    ConnectAddr::V4 { ip: u32::from_be_bytes(a), port }
}

/// An IPv6 address written as `head::tail`, each side a list of hex segments.
fn v6(s: &str, port: u16) -> ConnectAddr {
    let (head, tail) = s.split_once("::").unwrap_or((s, ""));
    let parse = |part: &str| -> Vec<u16> {
        part.split(':').filter(|x| !x.is_empty()).map(|x| u16::from_str_radix(x, 16).unwrap()).collect()
    };
    let h = parse(head);
    let t = parse(tail);
    let mut segs = h.clone();
    segs.resize(8 - t.len(), 0);
    segs.extend(t);
    let ip = segs.iter().fold(0u128, |acc, x| (acc << 16) | *x as u128);
    ConnectAddr::V6 { ip, port, flowinfo: 0, scope_id: 0 }
}

#[test]
fn tiers_follow_dial_preference() {
    assert_eq!(connect_addr_tier(&v4([127, 0, 0, 1], 1)), 0);
    assert_eq!(connect_addr_tier(&v6("::1", 1)), 1);
    assert_eq!(connect_addr_tier(&v4([192, 168, 1, 20], 1)), 2);
    assert_eq!(connect_addr_tier(&v4([10, 1, 2, 3], 1)), 2);
    assert_eq!(connect_addr_tier(&v4([172, 16, 0, 1], 1)), 2);
    assert_eq!(connect_addr_tier(&v4([172, 31, 255, 1], 1)), 2);
    assert_eq!(connect_addr_tier(&v4([172, 32, 0, 1], 1)), 3);
    assert_eq!(connect_addr_tier(&v4([169, 254, 3, 4], 1)), 2);
    assert_eq!(connect_addr_tier(&v4([8, 8, 8, 8], 1)), 3);
    assert_eq!(connect_addr_tier(&v6("2001:db8::1", 1)), 3);
    assert_eq!(connect_addr_tier(&v6("fd00::5", 1)), 3);
    assert_eq!(connect_addr_tier(&v6("fe80::1", 1)), 4);
    assert_eq!(connect_addr_tier(&v6("fe80::1c2b:3ff:fe4d:5e6f", 1)), 5);
}

#[test]
fn addresses_sorted_for_dialing() {
    let input = vec![
        v6("fe80::1c2b:3ff:fe4d:5e6f", 5000),
        v4([8, 8, 8, 8], 5000),
        v6("fe80::1", 5000),
        v4([192, 168, 1, 20], 5000),
        v6("::1", 5000),
        v4([127, 0, 0, 1], 5000),
        v4([10, 0, 0, 1], 5000),
        v6("2001:db8::1", 5000),
    ];
    let sorted = sort_connect_addrs(input);
    assert_eq!(
        sorted,
        vec![
            v4([127, 0, 0, 1], 5000),
            v6("::1", 5000),
            v4([10, 0, 0, 1], 5000),
            v4([192, 168, 1, 20], 5000),
            v4([8, 8, 8, 8], 5000),
            v6("2001:db8::1", 5000),
            v6("fe80::1", 5000),
            v6("fe80::1c2b:3ff:fe4d:5e6f", 5000),
        ]
    );
}

#[test]
fn sort_keeps_duplicates_and_orders_ports() {
    let input = vec![v4([127, 0, 0, 1], 9), v4([127, 0, 0, 1], 3), v4([127, 0, 0, 1], 9)];
    let sorted = sort_connect_addrs(input);
    assert_eq!(sorted, vec![v4([127, 0, 0, 1], 3), v4([127, 0, 0, 1], 9), v4([127, 0, 0, 1], 9)]);
    assert_eq!(sort_connect_addrs(Vec::new()), Vec::new());
}

#[test]
fn keep_alive_floors() {
    let mut w = WlanOptimization::default();
    assert_eq!(keep_alive_interval_ms(&w), 500);
    w.keep_alive_interval_ms = 20;
    assert_eq!(keep_alive_interval_ms(&w), 250);
    w.enabled = 1;
    assert_eq!(keep_alive_interval_ms(&w), 20);
    w.keep_alive_interval_ms = 3;
    assert_eq!(keep_alive_interval_ms(&w), 10);
}

#[test]
fn tls_paths() {
    assert_eq!(tls_trust_anchor_pem_path(None), None);
    assert_eq!(tls_trust_anchor_pem_path(Some(String::new())), None);
    assert_eq!(tls_trust_anchor_pem_path(Some("/ca.pem".into())), Some("/ca.pem".to_string()));
    assert_eq!(tls_server_pem_paths(None, None), Ok(None));
    assert_eq!(tls_server_pem_paths(Some(String::new()), None), Ok(None));
    assert_eq!(
        tls_server_pem_paths(Some("c.pem".into()), Some("k.pem".into())),
        Ok(Some(("c.pem".to_string(), "k.pem".to_string())))
    );
    assert_eq!(
        tls_server_pem_paths(Some("c.pem".into()), None),
        Err("TLS: set both NGMT_TLS_SERVER_CERT_PEM and NGMT_TLS_SERVER_KEY_PEM, or neither (use rcgen lab certs)".to_string())
    );
    assert!(tls_server_pem_paths(Some("c.pem".into()), Some(String::new())).is_err());
    assert!(tls_server_pem_paths(None, Some("k.pem".into())).is_err());
}

#[test]
fn connect_plan_walks_sorted_addresses() {
    assert_eq!(
        ConnectPlan::new(Vec::new()).err(),
        Some("DNS lookup returned no addresses".to_string())
    );
    let mut plan =
        ConnectPlan::new(vec![v6("fe80::9", 1), v4([8, 8, 4, 4], 1), v4([127, 0, 0, 1], 1)]).unwrap();
    assert_eq!(plan.addrs().len(), 3);
    assert_eq!(plan.next_addr(), Some(v4([127, 0, 0, 1], 1)));
    plan.record_failure(AttemptFailure::Refused("invalid remote address".to_string()));
    assert_eq!(plan.next_addr(), Some(v4([8, 8, 4, 4], 1)));
    plan.record_failure(AttemptFailure::Handshake("aborted by peer".to_string()));
    assert_eq!(plan.next_addr(), Some(v6("fe80::9", 1)));
    plan.record_failure(AttemptFailure::TimedOut);
    assert_eq!(plan.next_addr(), None);
    assert_eq!(plan.into_error(), "handshake timed out after 3000 ms");
}

#[test]
fn connect_plan_error_without_attempts() {
    let plan = ConnectPlan::new(vec![v4([1, 2, 3, 4], 5)]).unwrap();
    assert_eq!(plan.into_error(), "no connection attempts");
}

#[test]
fn transport_config_builds() {
    let mut w = WlanOptimization::default();
    let _wired = ngmt_transport::engine::session::build_transport_config(&w);
    w.enabled = 1;
    w.keep_alive_interval_ms = 20;
    let _wlan = ngmt_transport::engine::session::build_transport_config(&w);
}

#[test]
fn connect_stops_at_first_success() {
    let mut plan =
        ConnectPlan::new(vec![v4([8, 8, 8, 8], 1), v4([127, 0, 0, 1], 1), v4([10, 0, 0, 1], 1)]).unwrap();
    assert_eq!(plan.advance(), ConnectAction::Try(v4([127, 0, 0, 1], 1)));
    assert_eq!(
        plan.after_attempt(AttemptOutcome::Failed(AttemptFailure::TimedOut)),
        ConnectAction::Try(v4([10, 0, 0, 1], 1))
    );
    assert_eq!(plan.after_attempt(AttemptOutcome::Connected), ConnectAction::Finish);
    assert_eq!(plan.advance(), ConnectAction::Try(v4([8, 8, 8, 8], 1)));
}

#[test]
fn connect_gives_up_with_last_failure() {
    let mut plan = ConnectPlan::new(vec![v4([1, 2, 3, 4], 5)]).unwrap();
    assert_eq!(plan.advance(), ConnectAction::Try(v4([1, 2, 3, 4], 5)));
    assert_eq!(
        plan.after_attempt(AttemptOutcome::Failed(AttemptFailure::Handshake("closed".to_string()))),
        ConnectAction::GiveUp("closed".to_string())
    );
}

#[test]
fn transport_settings_values() {
    let mut w = WlanOptimization::default();
    let s = transport_settings(&w);
    assert_eq!(s.idle_timeout_ms, 30_000);
    assert_eq!(s.keep_alive_ms, 500);
    assert_eq!(s.datagram_send_buffer, 4 * 1024 * 1024);
    assert_eq!(s.datagram_receive_buffer, 4 * 1024 * 1024);
    assert_eq!(s.congestion, CongestionControl::Bbr);
    w.enabled = 1;
    w.keep_alive_interval_ms = 20;
    assert_eq!(transport_settings(&w).keep_alive_ms, 20);
}
