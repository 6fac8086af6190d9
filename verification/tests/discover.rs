use ngmt_transport::text::{first_field, str_less, trim, trim_end_char, white_space};
use ngmt_transport::discover::{
    browse_wait_slice, ngmt_service_type, parse_txt_role, DiscoveryCache, DiscoveryEvent,
    RecvOutcome,
};

fn resolved(fullname: &str, host: &str, port: u16, role: Option<&str>) -> DiscoveryEvent {
    DiscoveryEvent::ServiceResolved {
        fullname: fullname.to_string(),
        hostname: host.to_string(),
        port,
        role: role.map(|r| r.to_string()),
    }
}

#[test]
fn resolved_service_is_found_case_insensitively() {
    let mut c = DiscoveryCache::new();
    c.apply_event(resolved("Studio-Gen._ngmt._udp.local.", "Mac.local.", 5000, Some("  Generator ")));
    let e = c.lookup_fullname("STUDIO-GEN._NGMT._UDP.LOCAL.").expect("entry");
    assert_eq!(e.fullname, "studio-gen._ngmt._udp.local.");
    assert_eq!(e.instance_name, "Studio-Gen");
    assert_eq!(e.host, "Mac.local");
    assert_eq!(e.port, 5000);
    assert_eq!(e.role, "generator");
    assert_eq!(c.len(), 1);
}

#[test]
fn resolving_again_replaces_entry() {
    let mut c = DiscoveryCache::new();
    c.apply_event(resolved("A._ngmt._udp.local.", "a.local.", 1, None));
    c.apply_event(resolved("a._ngmt._udp.local.", "b.local..", 2, Some("monitor")));
    assert_eq!(c.len(), 1);
    let e = c.lookup_fullname("a._ngmt._udp.local.").unwrap();
    assert_eq!(e.host, "b.local");
    assert_eq!(e.port, 2);
    assert_eq!(e.instance_name, "a");
    assert_eq!(e.role, "monitor");
}

#[test]
fn removed_service_is_gone() {
    let mut c = DiscoveryCache::new();
    c.apply_event(resolved("X._ngmt._udp.local.", "x.local.", 7, None));
    c.apply_event(resolved("Y._ngmt._udp.local.", "y.local.", 8, None));
    c.apply_event(DiscoveryEvent::ServiceRemoved { fullname: "x._NGMT._udp.local.".to_string() });
    assert!(c.lookup_fullname("x._ngmt._udp.local.").is_none());
    assert!(c.lookup_fullname("y._ngmt._udp.local.").is_some());
    assert_eq!(c.len(), 1);
}

#[test]
fn other_events_change_nothing() {
    let mut c = DiscoveryCache::new();
    c.apply_event(resolved("Z._ngmt._udp.local.", "z.local.", 9, None));
    c.apply_event(DiscoveryEvent::Other);
    assert_eq!(c.len(), 1);
}

#[test]
fn snapshot_is_sorted_by_fullname() {
    let mut c = DiscoveryCache::new();
    for name in ["m._ngmt._udp.local.", "B._ngmt._udp.local.", "z._ngmt._udp.local.", "a._ngmt._udp.local."] {
        c.apply_event(resolved(name, "h.local.", 1, None));
    }
    let names: Vec<String> = c.sorted_snapshot().into_iter().map(|e| e.fullname).collect();
    assert_eq!(
        names,
        vec![
            "a._ngmt._udp.local.".to_string(),
            "b._ngmt._udp.local.".to_string(),
            "m._ngmt._udp.local.".to_string(),
            "z._ngmt._udp.local.".to_string(),
        ]
    );
    assert_eq!(c.entry_at(1).unwrap().fullname, "b._ngmt._udp.local.");
    assert!(c.entry_at(4).is_none());
}

#[test]
fn txt_role_parsing() {
    assert_eq!(parse_txt_role(None), None);
    assert_eq!(parse_txt_role(Some("   ")), None);
    assert_eq!(parse_txt_role(Some("")), None);
    assert_eq!(parse_txt_role(Some(" GeNerator\t")), Some("generator".to_string()));
}

#[test]
fn lost_channel_reports_error() {
    let mut c = DiscoveryCache::new();
    assert_eq!(c.handle_recv(RecvOutcome::Timeout), Ok(()));
    assert_eq!(
        c.handle_recv(RecvOutcome::Event(resolved("q._ngmt._udp.local.", "q.", 3, None))),
        Ok(())
    );
    assert_eq!(c.len(), 1);
    assert_eq!(
        c.handle_recv(RecvOutcome::Disconnected),
        Err("mDNS browse channel disconnected".to_string())
    );
    assert_eq!(c.len(), 1);
}

#[test]
fn browse_slices() {
    assert_eq!(browse_wait_slice(0), None);
    assert_eq!(browse_wait_slice(1), Some(1));
    assert_eq!(browse_wait_slice(49_999_999), Some(49_999_999));
    assert_eq!(browse_wait_slice(200_000_000), Some(50_000_000));
    assert_eq!(ngmt_service_type(), "_ngmt._udp.local.");
}

#[test]
fn text_helpers() {
    assert_eq!(trim_end_char("mac.local...", '.'), "mac.local");
    assert_eq!(trim_end_char("...", '.'), "");
    assert_eq!(trim_end_char("é.x", '.'), "é.x");
    assert_eq!(first_field("Cam.é._ngmt", '.'), "Cam");
    assert_eq!(first_field("nodot", '.'), "nodot");
    assert_eq!(first_field(".lead", '.'), "");
    assert!(str_less("a", "b"));
    assert!(str_less("ab", "abc"));
    assert!(!str_less("abc", "ab"));
    assert!(!str_less("same", "same"));
    assert!(str_less("Z", "a"));
    assert!(str_less("z", "é"));
}

#[test]
fn white_space_trim() {
    assert_eq!(trim("\u{3000}\u{a0} role \t\n\u{2029}"), "role");
    assert_eq!(trim(" a b "), "a b");
    assert_eq!(trim("\u{200b}x"), "\u{200b}x");
    assert_eq!(trim("   "), "");
    for c in ['\t', '\n', '\u{b}', '\u{c}', '\r', ' ', '\u{85}', '\u{a0}', '\u{1680}', '\u{2000}', '\u{200a}', '\u{2028}', '\u{2029}', '\u{202f}', '\u{205f}', '\u{3000}'] {
        assert!(white_space(c));
        assert_eq!(white_space(c), c.is_whitespace());
    }
    for c in ['a', '\u{200b}', '\u{180e}', '\u{feff}', '0'] {
        assert!(!white_space(c));
        assert_eq!(white_space(c), c.is_whitespace());
    }
}
