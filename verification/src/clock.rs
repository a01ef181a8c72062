use vstd::prelude::*;
use std::time::{Duration, SystemTime, UNIX_EPOCH};

verus! {

/// `std::time::SystemTime`, declared so that a clock reading can pass
/// through verified code; nothing inside it is visible here.
#[verifier::external_type_specification]
#[verifier::external_body]
pub struct ExSystemTime(SystemTime);

/// Calls `SystemTime::now`: the clock's reading, of which nothing is stated.
#[verifier::external_body]
fn system_now() -> (t: SystemTime) {
    SystemTime::now()
}

/// Calls `SystemTime::duration_since` with `UNIX_EPOCH`: `None` where the
/// reading lies before the epoch. Nothing is stated of the duration, which
/// rests on the clock.
#[verifier::external_body]
fn since_unix_epoch(t: &SystemTime) -> (d: Option<Duration>) {
    t.duration_since(UNIX_EPOCH).ok()
}

/// Calls `Duration::as_millis`: the whole milliseconds of a duration, of
/// which nothing is stated (the duration is opaque here).
#[verifier::external_body]
fn duration_millis(d: &Duration) -> (ms: u128) {
    d.as_millis()
}

/// Milliseconds since the Unix epoch by the system clock, or `None` where
/// the clock reads a time before the epoch. The value rests on the clock:
/// nothing more is stated of it.
pub fn get_now() -> (ms: Option<u128>) {
    let now = system_now();
    match since_unix_epoch(&now) {
        Some(d) => Some(duration_millis(&d)),
        None => None,
    }
}

} // verus!
