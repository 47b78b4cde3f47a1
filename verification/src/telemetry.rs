//! Periodic health report of the device.

use vstd::prelude::*;

use std::time::Duration;
use std::time::Instant;

verus! {

#[verifier::external_type_specification]
#[verifier::external_body]
pub struct ExInstant(Instant);

/// `Instant::now`: the current reading of the monotonic clock. Nothing is
/// claimed of the value, which depends on the time of the call.
#[verifier::external_body]
fn instant_now() -> (now: Instant) {
    Instant::now()
}

/// The time from `earlier` to `later`, zero when `earlier` is later: what
/// `Instant::duration_since` returns.
pub uninterp spec fn duration_between(later: Instant, earlier: Instant) -> Duration;

/// The whole seconds of `d`: what `Duration::as_secs` returns.
pub uninterp spec fn whole_secs(d: Duration) -> u64;

/// `Instant::duration_since`: the time from `earlier` to `later` (zero when
/// `earlier` is later). Claimed: the result depends on the two instants
/// alone, as `duration_between(later, earlier)`.
#[verifier::external_body]
fn instant_duration_since(later: Instant, earlier: Instant) -> (d: Duration)
    ensures
        d == duration_between(later, earlier),
{
    later.duration_since(earlier)
}

/// `Duration::as_secs`: the whole seconds of `d`. Claimed: the result
/// depends on `d` alone, as `whole_secs(d)`.
#[verifier::external_body]
fn duration_as_secs(d: Duration) -> (secs: u64)
    ensures
        secs == whole_secs(d),
{
    d.as_secs()
}

/// Health report. Every field but `uptime_secs` is optional: a metric that
/// is not available when the report is built is left out.
#[derive(Debug, PartialEq, Eq)]
pub struct TelemetryReport {
    /// Seconds since boot.
    pub uptime_secs: u64,
    /// Free heap in bytes.
    pub heap_free_bytes: Option<u32>,
    /// WiFi signal strength in dBm.
    pub rssi_dbm: Option<i8>,
    /// Current mode of the light (for correlation).
    pub mode: String,
    /// Current LED intensity (for correlation).
    pub intensity: u8,
}

impl TelemetryReport {
    /// A report that holds only an uptime.
    pub fn from_uptime(uptime_secs: u64) -> (r: Self)
        ensures
            r.uptime_secs == uptime_secs,
            r.heap_free_bytes is None,
            r.rssi_dbm is None,
            r.mode@ == Seq::<char>::empty(),
            r.intensity == 0,
    {
        TelemetryReport {
            uptime_secs,
            heap_free_bytes: None,
            rssi_dbm: None,
            mode: String::new(),
            intensity: 0,
        }
    }

    /// A report with the whole seconds elapsed from `boot_time` to the
    /// current instant (read from the clock) as its uptime, and nothing else.
    pub fn new(boot_time: Instant) -> (r: Self)
        ensures
            exists|now: Instant| r.uptime_secs == whole_secs(duration_between(now, boot_time)),
            r.heap_free_bytes is None,
            r.rssi_dbm is None,
            r.mode@ == Seq::<char>::empty(),
            r.intensity == 0,
    {
        let now = instant_now();
        let elapsed = instant_duration_since(now, boot_time);
        Self::from_uptime(duration_as_secs(elapsed))
    }

    /// Adds the free heap size, as read from the system by the caller.
    pub fn with_heap(self, free: u32) -> (r: Self)
        ensures
            r == (TelemetryReport { heap_free_bytes: Some(free), ..self }),
    {
        TelemetryReport { heap_free_bytes: Some(free), ..self }
    }

    /// Adds the snapshot of the light state.
    pub fn with_light_state(self, intensity: u8, mode: &str) -> (r: Self)
        ensures
            r.intensity == intensity,
            r.mode@ == mode@,
            r.uptime_secs == self.uptime_secs,
            r.heap_free_bytes == self.heap_free_bytes,
            r.rssi_dbm == self.rssi_dbm,
    {
        TelemetryReport { intensity, mode: mode.to_owned(), ..self }
    }
}

/// Nanoseconds between two telemetry reports (60 s).
pub const TELEMETRY_INTERVAL_NANOS: u128 = 60_000_000_000;

/// When the next telemetry report is due, in nanoseconds since boot.
#[derive(Debug, Clone, Copy, PartialEq, Eq, Structural)]
pub struct TelemetryTimer {
    pub next_due_nanos: u128,
}

impl TelemetryTimer {
    /// The first report falls due one interval after `now_nanos`.
    pub fn new(now_nanos: u128) -> (t: Self)
        requires
            now_nanos + TELEMETRY_INTERVAL_NANOS <= u128::MAX,
        ensures
            t.next_due_nanos == now_nanos + TELEMETRY_INTERVAL_NANOS,
    {
        TelemetryTimer { next_due_nanos: now_nanos + TELEMETRY_INTERVAL_NANOS }
    }

    /// A report is due at `now_nanos`.
    pub fn is_due(&self, now_nanos: u128) -> (due: bool)
        ensures
            due == (now_nanos >= self.next_due_nanos),
    {
        now_nanos >= self.next_due_nanos
    }

    /// After a report sent at `now_nanos`, the next one falls due one
    /// interval later.
    pub fn schedule_after(&mut self, now_nanos: u128)
        requires
            now_nanos + TELEMETRY_INTERVAL_NANOS <= u128::MAX,
        ensures
            final(self).next_due_nanos == now_nanos + TELEMETRY_INTERVAL_NANOS,
    {
        self.next_due_nanos = now_nanos + TELEMETRY_INTERVAL_NANOS;
    }
}

/// Telemetry goes out every 60 s: after a report scheduled at `sent`, a
/// report is due at `later` exactly when 60 s or more have passed.
pub proof fn lemma_telemetry_every_interval(sent: u128, later: u128)
    requires
        sent + TELEMETRY_INTERVAL_NANOS <= u128::MAX,
    ensures
        ({
            let t = TelemetryTimer { next_due_nanos: (sent + TELEMETRY_INTERVAL_NANOS) as u128 };
            (later >= t.next_due_nanos) <==> later - sent >= TELEMETRY_INTERVAL_NANOS
        }),
{
}

} // verus!
