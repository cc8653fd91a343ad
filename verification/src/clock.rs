//! The wall clock, read through `std::time`.
use std::time::{Duration, SystemTime};
use vstd::prelude::*;

verus! {

#[verifier::external_type_specification]
#[verifier::external_body]
pub struct ExSystemTime(SystemTime);

/// `SystemTime::now()`. Nothing is claimed of the value.
#[verifier::external_body]
fn system_now() -> SystemTime {
    SystemTime::now()
}

/// `t.duration_since(UNIX_EPOCH)`, `None` where std reports the time as earlier than the
/// epoch. Nothing is claimed of the duration.
#[verifier::external_body]
fn since_unix_epoch(t: SystemTime) -> Option<Duration> {
    match t.duration_since(std::time::UNIX_EPOCH) {
        Ok(d) => Some(d),
        Err(_) => None,
    }
}

/// `Duration::as_secs`: the whole seconds of the duration. Nothing more is claimed.
#[verifier::external_body]
fn duration_secs(d: &Duration) -> u64 {
    d.as_secs()
}

/// `Duration::subsec_nanos`: the fractional part of the duration in nanoseconds, which
/// std documents as always less than one billion.
#[verifier::external_body]
fn duration_subsec_nanos(d: &Duration) -> (r: u32)
    ensures
        r < 1_000_000_000,
{
    d.subsec_nanos()
}

/// Total nanoseconds of a duration of `secs` whole seconds and `subsec` nanoseconds
/// (what `Duration::as_nanos` returns).
pub open spec fn total_nanos(secs: u64, subsec: u32) -> int {
    secs * 1_000_000_000 + subsec
}

/// Total whole milliseconds of a duration of `secs` whole seconds and `subsec`
/// nanoseconds (what `Duration::as_millis` returns).
pub open spec fn total_millis(secs: u64, subsec: u32) -> int {
    secs * 1000 + subsec / 1_000_000
}

/// The whole seconds and sub-second nanoseconds elapsed since the Unix epoch, `(0, 0)` when
/// the clock reads earlier (`duration_since(UNIX_EPOCH).unwrap_or_default()`).
fn since_epoch_parts() -> (r: (u64, u32))
    ensures
        r.1 < 1_000_000_000,
{
    match since_unix_epoch(system_now()) {
        Some(d) => (duration_secs(&d), duration_subsec_nanos(&d)),
        None => (0, 0),
    }
}

/// Nanoseconds since the Unix epoch, 0 when the clock reads earlier
/// (`duration_since(UNIX_EPOCH).unwrap_or_default().as_nanos()`). The reading itself is
/// the machine's: the result is the total nanoseconds of some elapsed time.
pub fn unix_nanos() -> (r: u128)
    ensures
        exists|secs: u64, subsec: u32| subsec < 1_000_000_000 && r == #[trigger] total_nanos(secs, subsec),
{
    let (secs, subsec) = since_epoch_parts();
    assert(secs * 1_000_000_000 <= 0xffff_ffff_ffff_ffff * 1_000_000_000) by (nonlinear_arith);
    let r: u128 = secs as u128 * 1_000_000_000 + subsec as u128;
    assert(r == total_nanos(secs, subsec));
    r
}

/// Milliseconds since the Unix epoch, 0 when the clock reads earlier
/// (`duration_since(UNIX_EPOCH).unwrap_or_default().as_millis()`). The reading itself is
/// the machine's: the result is the total whole milliseconds of some elapsed time.
pub fn unix_millis() -> (r: u128)
    ensures
        exists|secs: u64, subsec: u32| subsec < 1_000_000_000 && r == #[trigger] total_millis(secs, subsec),
{
    let (secs, subsec) = since_epoch_parts();
    assert(secs * 1000 <= 0xffff_ffff_ffff_ffff * 1000) by (nonlinear_arith);
    let r: u128 = secs as u128 * 1000 + (subsec / 1_000_000) as u128;
    assert(r == total_millis(secs, subsec));
    r
}

} // verus!
