//! How an interactive session ends: its deadline budget and the exit code a
//! timed-out session reports.

use std::time::Duration;
use vstd::prelude::*;

verus! {

/// Exit code used when a session's deadline passes: distinct from success
/// (`0`) and from a generic failure (`1`).
pub const EXIT_TIMEOUT: i32 = 4;

/// What `Duration::from_secs` returns for a whole number of seconds.
pub uninterp spec fn secs_duration(secs: u64) -> Duration;

/// What `Duration::as_secs` returns: the whole seconds of a duration.
pub uninterp spec fn whole_secs(d: Duration) -> u64;

/// What `Duration::subsec_nanos` returns: the fractional part in nanoseconds.
pub uninterp spec fn fraction_nanos(d: Duration) -> u32;

/// `Duration::from_secs`. Claims that the result is determined by `secs`,
/// and, as std documents, that it has `secs` whole seconds and no fractional
/// part.
#[verifier::external_body]
pub(crate) fn duration_from_secs(secs: u64) -> (d: Duration)
    ensures
        d == secs_duration(secs),
        whole_secs(d) == secs,
        fraction_nanos(d) == 0,
{
    Duration::from_secs(secs)
}

/// `Clone::clone` on `Duration`, a `Copy` type: claims the clone equals
/// the original.
pub assume_specification[<Duration as Clone>::clone](d: &Duration) -> (r: Duration)
    ensures
        r == *d;

/// What `Duration::from_millis` returns for a number of milliseconds.
pub uninterp spec fn millis_duration(millis: u64) -> Duration;

/// `Duration::from_millis`. Claims that the result is determined by
/// `millis`, and, as std documents, that it splits into whole seconds and
/// the remaining milliseconds as nanoseconds.
#[verifier::external_body]
pub(crate) fn duration_from_millis(millis: u64) -> (d: Duration)
    ensures
        d == millis_duration(millis),
        whole_secs(d) == millis / 1000,
        fraction_nanos(d) == (millis % 1000) * 1_000_000,
{
    Duration::from_millis(millis)
}

/// `Duration::as_secs`: claims only that the result is the named whole
/// seconds of the duration.
#[verifier::external_body]
pub(crate) fn duration_as_secs(d: &Duration) -> (r: u64)
    ensures
        r == whole_secs(*d),
{
    d.as_secs()
}

/// `Duration::subsec_nanos`: claims that the result is the named fractional
/// part, which std documents as always below one billion.
#[verifier::external_body]
pub(crate) fn duration_subsec_nanos(d: &Duration) -> (r: u32)
    ensures
        r == fraction_nanos(*d),
        r < 1_000_000_000,
{
    d.subsec_nanos()
}

/// The deadline a `--timeout` value asks for: none without the flag, and
/// none for `0`, which reads as "don't time out".
pub open spec fn deadline_spec(seconds: Option<u64>) -> Option<Duration> {
    match seconds {
        Some(s) => if s > 0 { Some(secs_duration(s)) } else { None },
        None => None,
    }
}

/// Converts a `--timeout` value in seconds into a deadline budget; `0` means
/// no deadline rather than an instant one.
pub fn deadline_from_seconds(seconds: Option<u64>) -> (r: Option<Duration>)
    ensures
        r == deadline_spec(seconds),
        r matches Some(d) ==> whole_secs(d) == seconds.unwrap() && fraction_nanos(d) == 0,
{
    match seconds {
        Some(s) => {
            if s > 0 {
                Some(duration_from_secs(s))
            } else {
                None
            }
        },
        None => None,
    }
}

} // verus!
