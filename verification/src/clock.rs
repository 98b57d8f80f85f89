//! The system clock, as far as the library reads it: whole seconds since the
//! Unix epoch, and the nanoseconds that the games draw their chance from.
use vstd::prelude::*;

verus! {

#[verifier::external_type_specification]
#[verifier::external_body]
pub struct ExSystemTime(std::time::SystemTime);

/// std's `SystemTime::now`; nothing is promised about the instant.
#[verifier::external_body]
pub(crate) fn system_now() -> std::time::SystemTime {
    std::time::SystemTime::now()
}

/// Whole seconds from the Unix epoch to `t` (std's
/// `SystemTime::duration_since(UNIX_EPOCH)`), `None` for instants before the
/// epoch. Nothing is promised about the value.
#[verifier::external_body]
pub(crate) fn secs_since_epoch(t: &std::time::SystemTime) -> Option<u64> {
    t.duration_since(std::time::UNIX_EPOCH).ok().map(|d| d.as_secs())
}

/// The sub-second part of the time from the Unix epoch to `t`, in
/// nanoseconds (std's `Duration::subsec_nanos` of
/// `SystemTime::duration_since(UNIX_EPOCH)`, 0 for instants before the
/// epoch). std documents it as less than one second; the value itself is the
/// clock's.
#[verifier::external_body]
pub(crate) fn subsec_nanos_since_epoch(t: &std::time::SystemTime) -> (r: u32)
    ensures
        r < 1_000_000_000,
{
    t.duration_since(std::time::UNIX_EPOCH).unwrap_or_default().subsec_nanos()
}

/// The whole time from the Unix epoch to `t` in nanoseconds, cut to `usize`
/// (std's `Duration::as_nanos` of `SystemTime::duration_since(UNIX_EPOCH)`,
/// 0 for instants before the epoch). Nothing is promised about the value.
#[verifier::external_body]
pub(crate) fn nanos_since_epoch(t: &std::time::SystemTime) -> usize {
    t.duration_since(std::time::UNIX_EPOCH).unwrap_or_default().as_nanos() as usize
}

} // verus!
