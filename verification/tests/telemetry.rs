use lamp_schedule::telemetry::{TelemetryReport, TelemetryTimer};
use std::time::Instant;

#[test]
fn new_report_holds_only_uptime() {
    let boot = Instant::now();
    let r = TelemetryReport::new(boot);
    assert!(r.uptime_secs < 5);
    assert_eq!(r.heap_free_bytes, None);
    assert_eq!(r.rssi_dbm, None);
    assert_eq!(r.mode, "");
    assert_eq!(r.intensity, 0);
}

#[test]
fn from_uptime_keeps_the_uptime() {
    let r = TelemetryReport::from_uptime(3600);
    assert_eq!(r.uptime_secs, 3600);
    assert_eq!(r.mode, "");
}

#[test]
fn builders_fill_their_fields() {
    let r = TelemetryReport::from_uptime(42).with_heap(123_456).with_light_state(65, "auto");
    assert_eq!(
        r,
        TelemetryReport {
            uptime_secs: 42,
            heap_free_bytes: Some(123_456),
            rssi_dbm: None,
            mode: "auto".to_string(),
            intensity: 65,
        }
    );
}

#[test]
fn uptime_counts_whole_seconds_since_boot() {
    let boot = Instant::now() - std::time::Duration::from_millis(2500);
    let r = TelemetryReport::new(boot);
    assert!(r.uptime_secs >= 2 && r.uptime_secs < 10);
}

#[test]
fn telemetry_is_due_every_sixty_seconds() {
    let mut t = TelemetryTimer::new(1_000);
    assert_eq!(t.next_due_nanos, 60_000_001_000);
    assert!(!t.is_due(60_000_000_999));
    assert!(t.is_due(60_000_001_000));
    t.schedule_after(60_000_002_000);
    assert!(!t.is_due(120_000_001_999));
    assert!(t.is_due(120_000_002_000));
}
