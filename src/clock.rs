use vstd::prelude::*;

verus! {

/// Nanoseconds since the Unix epoch, from the system clock.
///
/// Relies on `std::time::SystemTime::elapsed` measured from `UNIX_EPOCH`. The clock
/// may move in any direction, so nothing is promised of the value; a clock set
/// before the epoch reads as zero.
#[verifier::external_body]
pub(crate) fn gen_timestamp() -> (r: u128) {
    match std::time::UNIX_EPOCH.elapsed() {
        Ok(d) => d.as_nanos(),
        Err(_) => 0,
    }
}

} // verus!
