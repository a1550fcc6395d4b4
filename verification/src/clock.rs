//! The wall clock, read through `std::time`.
use vstd::prelude::*;

verus! {

/// `std::time::SystemTime`, carried through opaquely.
#[verifier::external_type_specification]
#[verifier::external_body]
pub struct ExSystemTime(std::time::SystemTime);

/// `std::time::SystemTime::now`: the current time. Nothing is stated of it:
/// it depends on the machine's clock.
#[verifier::external_body]
fn system_time_now() -> std::time::SystemTime {
    std::time::SystemTime::now()
}

/// `SystemTime::duration_since(UNIX_EPOCH)`, in whole seconds, or 0 for a time
/// before the epoch. Nothing is stated of the number: the time value is opaque.
#[verifier::external_body]
fn secs_since_unix_epoch(t: &std::time::SystemTime) -> u64 {
    match t.duration_since(std::time::UNIX_EPOCH) {
        Ok(d) => d.as_secs(),
        Err(_) => 0,
    }
}

/// Seconds since the Unix epoch, now.
pub fn unix_now_secs() -> u64 {
    let t = system_time_now();
    secs_since_unix_epoch(&t)
}

} // verus!
