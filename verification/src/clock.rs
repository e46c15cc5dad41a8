//! The clocks: the wall clock, read where the daemon stamps a record, and
//! the monotonic clock, read where it schedules something.
use vstd::prelude::*;

verus! {

#[verifier::external_type_specification]
#[verifier::external_body]
pub struct ExSystemTime(std::time::SystemTime);

/// `SystemTime::now`: the wall clock's reading. Nothing is stated of it: it
/// is the time.
#[verifier::external_body]
fn system_now() -> std::time::SystemTime {
    std::time::SystemTime::now()
}

/// `SystemTime::duration_since(UNIX_EPOCH)`: how long after the Unix epoch
/// `t` lies, or `None` for a reading before the epoch. Nothing is stated of
/// the duration.
#[verifier::external_body]
fn since_unix_epoch(t: &std::time::SystemTime) -> Option<std::time::Duration> {
    match t.duration_since(std::time::UNIX_EPOCH) {
        Ok(d) => Some(d),
        Err(_) => None,
    }
}

/// `Duration::as_millis`: the whole milliseconds of `d`. Nothing is stated
/// of the value.
#[verifier::external_body]
fn millis_of(d: &std::time::Duration) -> u128 {
    d.as_millis()
}

/// Milliseconds since the Unix epoch on the wall clock, cut to 64 bits; 0
/// if the clock reads before the epoch. Nothing is stated of the value: it
/// is the time.
pub(crate) fn now_ms() -> u64 {
    match since_unix_epoch(&system_now()) {
        Some(d) => {
            let ms = millis_of(&d);
            (ms % 0x1_0000_0000_0000_0000u128) as u64
        },
        None => 0,
    }
}

/// `nix::time::clock_gettime(CLOCK_MONOTONIC)`: the seconds and
/// nanoseconds of the monotonic clock, or `None` where it cannot be read.
/// Nothing is stated of the values: they are the time.
#[verifier::external_body]
fn monotonic_time() -> Option<(i64, i64)> {
    match nix::time::clock_gettime(nix::time::ClockId::CLOCK_MONOTONIC) {
        Ok(t) => Some((t.tv_sec() as i64, t.tv_nsec() as i64)),
        Err(_) => None,
    }
}

/// Milliseconds on the monotonic clock, which setting the wall clock does
/// not move; 0 if it cannot be read or reads negative, `u64::MAX` past
/// that. Nothing is stated of the value: it is the time.
pub(crate) fn monotonic_ms() -> u64 {
    match monotonic_time() {
        Some((sec, nsec)) => {
            if sec < 0 || nsec < 0 {
                0
            } else {
                let s = sec as u64;
                let ms = (nsec as u64) / 1_000_000;
                if s > (u64::MAX - ms) / 1000 {
                    u64::MAX
                } else {
                    s * 1000 + ms
                }
            }
        },
        None => 0,
    }
}

} // verus!
