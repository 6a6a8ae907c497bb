//! Clock helpers: reading the wall clock and combining raw clock readings
//! (seconds plus nanoseconds) into nanosecond counters.

use vstd::prelude::*;

verus! {

/// Milliseconds in one day.
pub const MILL_A_DAY: u32 = 1000 * 60 * 60 * 24;

/// Error code returned when a clock reading cannot be represented.
pub const LD_EINVAL: i32 = 22;

pub const NANOS_PER_SEC: u64 = 1_000_000_000;

/// Relies on std::time::SystemTime::now and SystemTime::duration_since:
/// the wall clock as whole seconds since the Unix epoch plus a fractional
/// part; Duration::subsec_nanos is documented to lie below 1_000_000_000.
/// An Err means the clock stood before the epoch.
#[verifier::external_body]
fn realtime_clock_parts() -> (r: Result<(u64, u32), i32>)
    ensures
        r matches Ok(p) ==> p.1 < 1_000_000_000,
{
    match std::time::SystemTime::now().duration_since(std::time::UNIX_EPOCH) {
        Ok(d) => Ok((d.as_secs(), d.subsec_nanos())),
        Err(_) => Err(LD_EINVAL),
    }
}

/// Combines a raw clock reading of whole seconds and nanoseconds into one
/// nanosecond count, refusing negative or unrepresentable readings.
pub fn ns_from_parts(sec: i64, nsec: i64) -> (r: Option<u64>)
    requires
        0 <= nsec < 1_000_000_000,
    ensures
        r matches Some(ns) ==> sec >= 0 && ns == sec * 1_000_000_000 + nsec,
        r is None <==> (sec < 0 || sec * 1_000_000_000 + nsec > u64::MAX),
{
    if sec < 0 {
        return None;
    }
    let wide: u128 = (sec as u128) * 1_000_000_000u128 + (nsec as u128);
    if wide > u64::MAX as u128 {
        None
    } else {
        Some(wide as u64)
    }
}

/// The difference between a realtime reading and a monotonic reading, in
/// nanoseconds: the moment the machine's monotonic clock started, on the
/// wall clock. Err(LD_EINVAL) exactly when the difference is negative or
/// does not fit in u64.
pub fn relative_ns_parts(
    real_sec: i64,
    real_nsec: i64,
    mono_sec: i64,
    mono_nsec: i64,
) -> (r: Result<u64, i32>)
    requires
        0 <= real_nsec < 1_000_000_000,
        0 <= mono_nsec < 1_000_000_000,
    ensures
        r matches Ok(ns) ==> ns == (real_sec * 1_000_000_000 + real_nsec) - (mono_sec
            * 1_000_000_000 + mono_nsec),
        r is Err <==> ((real_sec * 1_000_000_000 + real_nsec) - (mono_sec * 1_000_000_000
            + mono_nsec) < 0 || (real_sec * 1_000_000_000 + real_nsec) - (mono_sec
            * 1_000_000_000 + mono_nsec) > u64::MAX),
        r matches Err(e) ==> e == LD_EINVAL,
{
    let mut tv_sec: i128 = (real_sec as i128) - (mono_sec as i128);
    let mut tv_nsec: i128 = (real_nsec as i128) - (mono_nsec as i128);
    if tv_nsec < 0 {
        tv_sec = tv_sec - 1;
        tv_nsec = tv_nsec + 1_000_000_000i128;
    }
    if tv_sec < 0 {
        return Err(LD_EINVAL);
    }
    let wide: i128 = tv_sec * 1_000_000_000i128 + tv_nsec;
    if wide > u64::MAX as i128 {
        Err(LD_EINVAL)
    } else {
        Ok(wide as u64)
    }
}

/// The wall clock in nanoseconds since the Unix epoch; Err when the clock
/// stands before the epoch or past what u64 holds.
pub fn get_current_time_ns() -> (r: Result<u64, i32>) {
    match realtime_clock_parts() {
        Ok((sec, nsec)) => {
            if sec >= u64::MAX / NANOS_PER_SEC {
                return Err(LD_EINVAL);
            }
            Ok(sec * NANOS_PER_SEC + (nsec as u64))
        },
        Err(e) => Err(e),
    }
}

/// The wall clock in milliseconds since the Unix epoch.
pub fn get_current_time_ms() -> (r: Result<u64, i32>) {
    match get_current_time_ns() {
        Ok(ns) => Ok(ns / 1_000_000),
        Err(e) => Err(e),
    }
}

/// A countdown that remembers when it was started and how long it runs.
pub struct LdCountdown {
    pub start_ms: u64,
    pub duration_ms: u64,
}

impl LdCountdown {
    /// A countdown of `duration_ms`, started at the current wall clock
    /// (zero when the clock cannot be read).
    pub fn new(duration_ms: u64) -> (r: LdCountdown)
        ensures
            r.duration_ms == duration_ms,
    {
        let start_ms: u64 = match get_current_time_ms() {
            Ok(ms) => ms,
            Err(_) => 0,
        };
        LdCountdown { start_ms, duration_ms }
    }

    /// How much of the countdown is left at `now_ms`: the duration minus
    /// the time elapsed since the start, never below zero.
    pub fn remaining_at(&self, now_ms: u64) -> (r: u64)
        ensures
            now_ms >= self.start_ms + self.duration_ms ==> r == 0,
            now_ms < self.start_ms + self.duration_ms && now_ms >= self.start_ms ==> r
                == self.start_ms + self.duration_ms - now_ms,
            now_ms < self.start_ms ==> r == self.duration_ms,
    {
        if now_ms <= self.start_ms {
            return self.duration_ms;
        }
        let elapsed: u64 = now_ms - self.start_ms;
        if elapsed >= self.duration_ms {
            0
        } else {
            self.duration_ms - elapsed
        }
    }

    /// The remaining time against the current wall clock.
    pub fn remaining(&self) -> (r: u64) {
        match get_current_time_ms() {
            Ok(now_ms) => self.remaining_at(now_ms),
            Err(_) => 0,
        }
    }
}

} // verus!
