use ngmt_transport::app_api::{ConnectionIntent, SampleRing};
use ngmt_transport::log_forward::{format_log_line, map_level, FieldBuf, LogLevel};

#[test]
fn intent_descriptions() {
    assert_eq!(ConnectionIntent::Broadcast.description(), "LAN discovery / advertised listener");
    assert_eq!(
        ConnectionIntent::PushCaller.description(),
        "Call out to peer listener (source pushes)"
    );
    assert_eq!(ConnectionIntent::PullCaller.description(), "Call peer listener (receiver pulls)");
}

fn slots(r: &SampleRing<u32>) -> Vec<u32> {
    (0..r.len()).map(|i| r.get(i)).collect()
}

#[test]
fn ring_keeps_most_recent_samples() {
    let mut r = SampleRing::new(4);
    for v in 1..=3 {
        r.push(v);
    }
    assert_eq!(slots(&r), vec![1, 2, 3]);
    r.push(4);
    assert_eq!(slots(&r), vec![1, 2, 3, 4]);
    r.push(5);
    assert_eq!(slots(&r), vec![5, 2, 3, 4]);
    r.push(6);
    r.push(7);
    r.push(8);
    r.push(9);
    assert_eq!(slots(&r), vec![9, 6, 7, 8]);
}

#[test]
fn ring_capacity_has_floor() {
    let mut r = SampleRing::new(1);
    for v in 0..10u32 {
        r.push(v);
    }
    assert_eq!(r.len(), 4);
    let mut held = slots(&r);
    held.sort();
    assert_eq!(held, vec![6, 7, 8, 9]);
}

#[test]
fn log_levels() {
    assert_eq!(map_level(LogLevel::Error), 400);
    assert_eq!(map_level(LogLevel::Warn), 300);
    assert_eq!(map_level(LogLevel::Info), 250);
    assert_eq!(map_level(LogLevel::Debug), 200);
    assert_eq!(map_level(LogLevel::Trace), 100);
}

#[test]
fn log_lines() {
    let mut f = FieldBuf::default();
    assert_eq!(format_log_line("ngmt_transport_ffi", "event src/ffi.rs:1", &f.out), "[ngmt_transport_ffi] event src/ffi.rs:1");
    f.record_str("init failed: x");
    f.record_str("code=3");
    assert_eq!(f.out, "init failed: x; code=3");
    assert_eq!(format_log_line("t", "n", &f.out), "[t] n — init failed: x; code=3");
}
