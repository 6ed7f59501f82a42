//! Timestamps: nanoseconds since the Unix epoch.
use std::time::{Duration, SystemTime, SystemTimeError};
use vstd::prelude::*;

verus! {

/// `std::time::SystemTime`.
#[verifier::external_type_specification]
#[verifier::external_body]
pub struct ExSystemTime(SystemTime);

/// `std::time::SystemTimeError`.
#[verifier::external_type_specification]
#[verifier::external_body]
pub struct ExSystemTimeError(SystemTimeError);

/// The nanoseconds from the Unix epoch to a time, negative for a time before it.
pub uninterp spec fn epoch_nanos(t: SystemTime) -> int;

/// The whole nanoseconds of a duration: what `Duration::as_nanos` returns.
pub uninterp spec fn duration_nanos(d: Duration) -> u128;

/// `SystemTime::now`: what the clock says, of which nothing is stated.
pub assume_specification[ SystemTime::now ]() -> SystemTime;

/// `SystemTime::duration_since`: how long after the other time a time is, or an error where it is
/// before it.
pub assume_specification[ SystemTime::duration_since ](
    t: &SystemTime,
    earlier: SystemTime,
) -> (r: Result<Duration, SystemTimeError>)
    ensures
        r is Ok <==> epoch_nanos(earlier) <= epoch_nanos(*t),
        r matches Ok(d) ==> duration_nanos(d) == epoch_nanos(*t) - epoch_nanos(earlier),
;

/// `Duration::as_nanos`: the whole nanoseconds of a duration.
pub assume_specification[ Duration::as_nanos ](d: &Duration) -> (r: u128)
    ensures
        r == duration_nanos(*d),
;

/// `SystemTime::UNIX_EPOCH`: the time from which the others are counted.
#[verifier::external_body]
fn unix_epoch() -> (r: SystemTime)
    ensures
        epoch_nanos(r) == 0,
{
    SystemTime::UNIX_EPOCH
}

/// The timestamp of a time: the last 64 bits of its nanoseconds since the epoch; `None` for a time
/// before it.
pub open spec fn timestamp_of(t: SystemTime) -> Option<u64> {
    if epoch_nanos(t) < 0 {
        None
    } else {
        Some((epoch_nanos(t) % 0x1_0000_0000_0000_0000) as u64)
    }
}

/// A count of nanoseconds as a timestamp: its last 64 bits.
pub fn timestamp_from_nanos(nanos: u128) -> (r: u64)
    ensures
        r == nanos % 0x1_0000_0000_0000_0000,
{
    (nanos % 0x1_0000_0000_0000_0000) as u64
}

/// The timestamp of a time.
pub fn timestamp(t: &SystemTime) -> (r: Option<u64>)
    ensures
        r == timestamp_of(*t),
{
    match t.duration_since(unix_epoch()) {
        Ok(since) => Some(timestamp_from_nanos(since.as_nanos())),
        Err(_) => None,
    }
}

/// The timestamp of the time that the clock shows, whatever it shows.
pub fn now_ns() -> (r: Option<u64>)
    ensures
        exists|t: SystemTime| r == #[trigger] timestamp_of(t),
{
    let t = SystemTime::now();
    timestamp(&t)
}

/// A time from the epoch on that 64 bits can count has its nanoseconds as timestamp, and only a
/// time before the epoch has none. A time that is 2^64 nanoseconds later has the same timestamp.
pub proof fn law_timestamps_count_nanoseconds(t: SystemTime, later: SystemTime)
    ensures
        0 <= epoch_nanos(t) <= 0xffff_ffff_ffff_ffff ==> timestamp_of(t) == Some(
            epoch_nanos(t) as u64,
        ),
        epoch_nanos(t) < 0 ==> timestamp_of(t) is None,
        epoch_nanos(t) >= 0 ==> timestamp_of(t) is Some,
        epoch_nanos(t) >= 0 && epoch_nanos(later) == epoch_nanos(t) + 0x1_0000_0000_0000_0000 ==> (
        timestamp_of(later) == timestamp_of(t)),
{
}

} // verus!
