use zero_claw::clock::{unix_millis, unix_nanos};

// 2020-09-13T12:26:40Z, well in the past of any machine that runs these tests.
const PAST_SECS: u128 = 1_600_000_000;

#[test]
fn unix_nanos_counts_nanoseconds_since_epoch() {
    let n = unix_nanos();
    assert!(n > PAST_SECS * 1_000_000_000);
    // Within the representable range of a `Duration`.
    assert!(n <= (u64::MAX as u128) * 1_000_000_000 + 999_999_999);
}

#[test]
fn unix_millis_counts_milliseconds_since_epoch() {
    let before = unix_nanos() / 1_000_000;
    let m = unix_millis();
    let after = unix_nanos() / 1_000_000;
    assert!(m > PAST_SECS * 1000);
    assert!(before <= m && m <= after);
}
