//! The wall clock, read through chrono.
use vstd::prelude::*;

verus! {

/// The system clock now (`std::time::SystemTime::now`), turned into a
/// `chrono::DateTime<Utc>` by chrono's `From<SystemTime>`, which takes a
/// reading before the epoch as a negative time, and read as whole seconds
/// since the Unix epoch (`DateTime::timestamp`) and the nanoseconds past
/// that second (`DateTime::timestamp_subsec_nanos`).
///
/// Trusted, and nothing is claimed of the result: it depends on the time.
#[verifier::external_body]
fn read_clock() -> (reading: (i64, u32)) {
    let now = chrono::DateTime::<chrono::Utc>::from(std::time::SystemTime::now());
    (now.timestamp(), now.timestamp_subsec_nanos())
}

/// Whether `t` nanoseconds since the Unix epoch is a time the clock can
/// give: a whole number of seconds that fits an `i64`, plus the nanoseconds
/// past it, which fit a `u32`.
pub open spec fn clock_time(t: int) -> bool {
    i64::MIN * 1_000_000_000 <= t <= i64::MAX * 1_000_000_000 + u32::MAX
}

/// Nanoseconds since the Unix epoch now.
pub fn now_nanos() -> (nanos: i128)
    ensures
        clock_time(nanos as int),
{
    let (seconds, subsec) = read_clock();
    (seconds as i128) * 1_000_000_000 + (subsec as i128)
}

} // verus!
