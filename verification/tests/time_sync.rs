use lamp_schedule::time_sync::{
    get_current_hm, get_local_time_string, is_clock_synced, sntp_wait_step, LocalTime, SyncWait,
};

fn tm(year: i32, mon: i32, mday: i32, hour: i32, min: i32, sec: i32) -> LocalTime {
    LocalTime { tm_year: year, tm_mon: mon, tm_mday: mday, tm_hour: hour, tm_min: min, tm_sec: sec }
}

#[test]
fn current_hm_of_local_time() {
    assert_eq!(get_current_hm(Some(tm(124, 0, 1, 9, 5, 0))), Some((9, 5)));
    assert_eq!(get_current_hm(None), None);
}

#[test]
fn timestamp_is_zero_padded() {
    assert_eq!(
        get_local_time_string(Some(tm(124, 0, 5, 9, 7, 3))),
        Some("2024-01-05 09:07:03".to_string())
    );
    assert_eq!(
        get_local_time_string(Some(tm(125, 11, 31, 23, 59, 60))),
        Some("2025-12-31 23:59:60".to_string())
    );
    assert_eq!(get_local_time_string(None), None);
}

#[test]
fn timestamp_matches_std_formatting_on_odd_values() {
    for t in [tm(-1900, -1, 0, -5, 123, 7), tm(-2000, 5, 10, 0, 0, 0), tm(9000, 99, 100, 100, -10, 0)] {
        let expected = format!(
            "{:04}-{:02}-{:02} {:02}:{:02}:{:02}",
            t.tm_year + 1900,
            t.tm_mon + 1,
            t.tm_mday,
            t.tm_hour,
            t.tm_min,
            t.tm_sec
        );
        assert_eq!(get_local_time_string(Some(t)), Some(expected));
    }
}

#[test]
fn clock_counts_as_synced_from_2020() {
    assert!(!is_clock_synced(0));
    assert!(!is_clock_synced(1_577_836_799));
    assert!(is_clock_synced(1_577_836_800));
    assert!(is_clock_synced(1_700_000_000));
}

#[test]
fn sntp_wait_decisions() {
    assert_eq!(sntp_wait_step(true, 0), SyncWait::Synced);
    assert_eq!(sntp_wait_step(true, 20_000_000_000), SyncWait::Synced);
    assert_eq!(sntp_wait_step(false, 0), SyncWait::KeepWaiting { sleep_nanos: 500_000_000 });
    assert_eq!(
        sntp_wait_step(false, 9_500_000_000),
        SyncWait::KeepWaiting { sleep_nanos: 500_000_000 }
    );
    assert_eq!(
        sntp_wait_step(false, 9_800_000_000),
        SyncWait::KeepWaiting { sleep_nanos: 200_000_000 }
    );
    assert_eq!(sntp_wait_step(false, 10_000_000_000), SyncWait::TimedOut);
    assert_eq!(sntp_wait_step(false, 10_000_000_001), SyncWait::TimedOut);
}
