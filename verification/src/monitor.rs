//! Process uptime accounting over caller-supplied clock readings.

use vstd::prelude::*;

verus! {

/// Remembers when the process started; the caller supplies clock readings in
/// milliseconds.
pub struct PerformanceMonitor {
    pub start_time_ms: u64,
}

impl PerformanceMonitor {
    /// A monitor started at the given clock reading.
    pub fn new(now_ms: u64) -> (r: Self)
        ensures
            r.start_time_ms == now_ms,
    {
        PerformanceMonitor { start_time_ms: now_ms }
    }

    /// Milliseconds elapsed since the start; zero if the clock reads earlier
    /// than the start.
    pub fn uptime(&self, now_ms: u64) -> (r: u64)
        ensures
            r == if now_ms >= self.start_time_ms {
                now_ms - self.start_time_ms
            } else {
                0
            },
    {
        if now_ms >= self.start_time_ms {
            now_ms - self.start_time_ms
        } else {
            0
        }
    }
}

} // verus!
